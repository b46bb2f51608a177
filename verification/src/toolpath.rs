//! The ordered record of machine motions that the planners produce.
use vstd::prelude::*;
use crate::gcode::{fixed_text, push_fixed};
use crate::geometry::{dist3, lemma_vec_product, mul_i64, Point3, VEC_SQ_LIMIT};
use crate::text::push_char;
use crate::units::{isqrt, lemma_sqrt_bound};

verus! {

#[derive(Debug, Clone, Copy, PartialEq, Eq, Structural)]
pub enum ToolMotion {
    /// A move at full speed, not cutting.
    Rapid { to: Point3 },
    /// A cutting move at the given feed rate.
    Feed { to: Point3, feed: i64 },
    /// A pause in place.
    Dwell { seconds: i64 },
}

impl ToolMotion {
    /// The point where a [`ToolMotion::Rapid`] or a [`ToolMotion::Feed`]
    /// ends; a [`ToolMotion::Dwell`] has none.
    pub open spec fn target(self) -> Option<Point3> {
        match self {
            ToolMotion::Rapid { to } => Some(to),
            ToolMotion::Feed { to, .. } => Some(to),
            ToolMotion::Dwell { .. } => None,
        }
    }

    /// The point where the motion ends; the origin for a dwell.
    pub fn end_position(&self) -> (p: Point3)
        ensures
            p == (match self.target() {
                Some(to) => to,
                None => Point3 { x: 0, y: 0, z: 0 },
            }),
    {
        match self {
            ToolMotion::Rapid { to } => *to,
            ToolMotion::Feed { to, .. } => *to,
            ToolMotion::Dwell { .. } => Point3 { x: 0, y: 0, z: 0 },
        }
    }
}

/// The end point of the last motion of `motions` that is not a dwell.
pub open spec fn last_position_of(motions: Seq<ToolMotion>) -> Option<Point3>
    decreases motions.len(),
{
    if motions.len() == 0 {
        None
    } else {
        match motions.last().target() {
            Some(to) => Some(to),
            None => last_position_of(motions.drop_last()),
        }
    }
}

/// The summed distance between the end points of successive motions of
/// `motions` that are not dwells.
pub open spec fn travel_length(motions: Seq<ToolMotion>) -> int
    decreases motions.len(),
{
    if motions.len() == 0 {
        0
    } else {
        let before = motions.drop_last();
        match motions.last().target() {
            None => travel_length(before),
            Some(to) => travel_length(before) + match last_position_of(before) {
                Some(prev) => dist3(to, prev),
                None => 0,
            },
        }
    }
}

/// The line that lists a motion.
pub open spec fn motion_line(m: ToolMotion) -> Seq<char> {
    match m {
        ToolMotion::Rapid { to } => "  RAPID -> X"@ + fixed_text(to.x as int, 3) + " Y"@ + fixed_text(
            to.y as int,
            3,
        ) + " Z"@ + fixed_text(to.z as int, 3) + seq!['\n'],
        ToolMotion::Feed { to, feed } => "  FEED  -> X"@ + fixed_text(to.x as int, 3) + " Y"@
            + fixed_text(to.y as int, 3) + " Z"@ + fixed_text(to.z as int, 3) + " F"@ + fixed_text(
            feed as int,
            1,
        ) + seq!['\n'],
        ToolMotion::Dwell { seconds } => "  DWELL "@ + fixed_text(seconds as int, 3) + "s"@ + seq![
            '\n',
        ],
    }
}

/// The lines that list the first `k` motions.
pub open spec fn motion_lines(motions: Seq<ToolMotion>, k: int) -> Seq<char>
    decreases k,
{
    if k <= 0 {
        Seq::empty()
    } else {
        motion_lines(motions, k - 1) + motion_line(motions[k - 1])
    }
}

/// The listing of a toolpath: a line with its name and its safe height, and
/// a line for each motion.
pub open spec fn listing(name: Seq<char>, safe_z: i64, motions: Seq<ToolMotion>) -> Seq<char> {
    "Toolpath: "@ + name + " (safe Z = "@ + fixed_text(safe_z as int, 3) + ")"@ + seq!['\n']
        + motion_lines(motions, motions.len() as int)
}

/// Appends the line that lists a motion.
fn push_motion_line(s: &mut String, m: &ToolMotion)
    ensures
        final(s)@ == old(s)@ + motion_line(*m),
{
    match m {
        ToolMotion::Rapid { to } => {
            s.append("  RAPID -> X");
            push_fixed(s, to.x, 3);
            s.append(" Y");
            push_fixed(s, to.y, 3);
            s.append(" Z");
            push_fixed(s, to.z, 3);
            push_char(s, '\n');
        },
        ToolMotion::Feed { to, feed } => {
            s.append("  FEED  -> X");
            push_fixed(s, to.x, 3);
            s.append(" Y");
            push_fixed(s, to.y, 3);
            s.append(" Z");
            push_fixed(s, to.z, 3);
            s.append(" F");
            push_fixed(s, *feed, 1);
            push_char(s, '\n');
        },
        ToolMotion::Dwell { seconds } => {
            s.append("  DWELL ");
            push_fixed(s, *seconds, 3);
            s.append("s");
            push_char(s, '\n');
        },
    }
    assert(s@ =~= old(s)@ + motion_line(*m));
}

/// Whether every rapid of `motions` ends at height `z`.
pub open spec fn rapids_at(motions: Seq<ToolMotion>, z: int) -> bool {
    forall|i: int|
        0 <= i < motions.len() ==> ((#[trigger] motions[i]) matches ToolMotion::Rapid { to }
            ==> to.z == z)
}

/// Whether every end point of `motions` lies inside the coordinate range.
pub open spec fn motions_in_range(motions: Seq<ToolMotion>) -> bool {
    forall|i: int|
        0 <= i < motions.len() ==> ((#[trigger] motions[i]).target() matches Some(to)
            ==> to.in_range())
}

#[derive(Debug, Clone, PartialEq, Eq)]
pub struct Toolpath {
    pub name: String,
    pub motions: Vec<ToolMotion>,
    pub safe_z: i64,
}

impl Toolpath {
    /// An empty toolpath.
    pub fn new(name: &str, safe_z: i64) -> (t: Self)
        ensures
            t.name@ == name@,
            t.motions@ == Seq::<ToolMotion>::empty(),
            t.safe_z == safe_z,
    {
        Toolpath { name: String::from_str(name), motions: Vec::new(), safe_z }
    }

    /// The end point of the last motion that is not a dwell.
    pub fn last_position(&self) -> (p: Option<Point3>)
        ensures
            p == last_position_of(self.motions@),
    {
        let mut k: usize = self.motions.len();
        assert(self.motions@.subrange(0, k as int) =~= self.motions@);
        while k > 0
            invariant
                k <= self.motions.len(),
                last_position_of(self.motions@) == last_position_of(
                    self.motions@.subrange(0, k as int),
                ),
            decreases k,
        {
            let prefix = Ghost(self.motions@.subrange(0, k as int));
            assert(prefix@.last() == self.motions@[k - 1]);
            assert(prefix@.drop_last() =~= self.motions@.subrange(0, k - 1));
            match self.motions[k - 1] {
                ToolMotion::Rapid { to } => {
                    return Some(to);
                },
                ToolMotion::Feed { to, .. } => {
                    return Some(to);
                },
                ToolMotion::Dwell { .. } => {},
            }
            k = k - 1;
        }
        assert(self.motions@.subrange(0, 0) =~= Seq::<ToolMotion>::empty());
        None
    }

    /// Appends a motion.
    pub fn push(&mut self, motion: ToolMotion)
        ensures
            final(self).motions@ == old(self).motions@.push(motion),
            final(self).name == old(self).name,
            final(self).safe_z == old(self).safe_z,
    {
        self.motions.push(motion);
    }

    pub fn is_empty(&self) -> (b: bool)
        ensures
            b == (self.motions@.len() == 0),
    {
        self.motions.len() == 0
    }

    /// The listing of the toolpath: a line with its name and its safe
    /// height, and a line for each motion, with three decimals for
    /// coordinates and seconds and one for feed rates.
    pub fn to_string(&self) -> (s: String)
        ensures
            s@ == listing(self.name@, self.safe_z, self.motions@),
    {
        let mut s = String::from_str("Toolpath: ");
        s.append(self.name.as_str());
        s.append(" (safe Z = ");
        push_fixed(&mut s, self.safe_z, 3);
        s.append(")");
        push_char(&mut s, '\n');
        let ghost head = s@;
        let mut i: usize = 0;
        assert(s@ =~= head + motion_lines(self.motions@, 0));
        while i < self.motions.len()
            invariant
                i <= self.motions.len(),
                s@ == head + motion_lines(self.motions@, i as int),
            decreases self.motions.len() - i,
        {
            push_motion_line(&mut s, &self.motions[i]);
            assert(s@ =~= head + motion_lines(self.motions@, i + 1));
            i = i + 1;
        }
        assert(head =~= "Toolpath: "@ + self.name@ + " (safe Z = "@ + fixed_text(
            self.safe_z as int,
            3,
        ) + ")"@ + seq!['\n']);
        s
    }

    /// The motions in order.
    pub fn iter(&self) -> (it: core::slice::Iter<'_, ToolMotion>)
        ensures
            vstd::std_specs::iter::IteratorSpec::remaining(&it) == self.motions@.as_ref(),
    {
        self.motions.iter()
    }

    /// The number of motions.
    pub fn len(&self) -> (n: usize)
        ensures
            n == self.motions@.len(),
    {
        self.motions.len()
    }

    /// The motion at position `index`.
    pub fn get(&self, index: usize) -> (m: Option<ToolMotion>)
        ensures
            m == (if index < self.motions@.len() {
                Some(self.motions@[index as int])
            } else {
                None
            }),
    {
        if index < self.motions.len() {
            Some(self.motions[index])
        } else {
            None
        }
    }

    /// The summed distance, each rounded down, between the end points of
    /// successive motions that are not dwells.
    pub fn total_length(&self) -> (len: i128)
        requires
            motions_in_range(self.motions@),
        ensures
            len == travel_length(self.motions@),
            0 <= len <= self.motions@.len() * 4_398_046_511_104,
    {
        let mut length: i128 = 0;
        let mut last: Option<Point3> = None;
        let mut i: usize = 0;
        while i < self.motions.len()
            invariant
                i <= self.motions.len(),
                motions_in_range(self.motions@),
                length == travel_length(self.motions@.subrange(0, i as int)),
                last == last_position_of(self.motions@.subrange(0, i as int)),
                last matches Some(p) ==> p.in_range(),
                0 <= length <= i * 4_398_046_511_104,
            decreases self.motions.len() - i,
        {
            let ghost next = self.motions@.subrange(0, i + 1);
            assert(next.last() == self.motions@[i as int]);
            assert(next.drop_last() =~= self.motions@.subrange(0, i as int));
            let m = self.motions[i];
            assert(m.target() matches Some(to) ==> to.in_range());
            match m {
                ToolMotion::Rapid { to } => {
                    if let Some(prev) = last {
                        length = length + distance3(to, prev) as i128;
                    }
                    last = Some(to);
                },
                ToolMotion::Feed { to, .. } => {
                    if let Some(prev) = last {
                        length = length + distance3(to, prev) as i128;
                    }
                    last = Some(to);
                },
                ToolMotion::Dwell { .. } => {},
            }
            i = i + 1;
        }
        assert(self.motions@.subrange(0, i as int) =~= self.motions@);
        length
    }
}

/// The distance between two points in space, rounded down.
pub fn distance3(a: Point3, b: Point3) -> (d: i64)
    requires
        a.in_range(),
        b.in_range(),
    ensures
        d == dist3(a, b),
        0 <= d <= 4_398_046_511_104,
{
    let dx = a.x - b.x;
    let dy = a.y - b.y;
    let dz = a.z - b.z;
    let xx = mul_i64(dx, dx);
    let yy = mul_i64(dy, dy);
    let zz = mul_i64(dz, dz);
    proof {
        lemma_vec_product(dx as int, dx as int);
        lemma_vec_product(dy as int, dy as int);
        lemma_vec_product(dz as int, dz as int);
    }
    let n: u128 = (xx + yy + zz) as u128;
    let r = isqrt(n);
    proof {
        let w = 4_398_046_511_104int;
        assert((w + 1) * (w + 1) > 3 * VEC_SQ_LIMIT) by (nonlinear_arith)
            requires
                w == 4_398_046_511_104int,
        ;
        lemma_sqrt_bound(n as int, w);
    }
    r as i64
}

#[derive(Debug, Clone, Copy, PartialEq, Eq, Structural)]
pub struct ToolState {
    pub feed: i64,
    pub spindle_rpm: i64,
}

impl ToolState {
    pub fn new(feed: i64, spindle_rpm: i64) -> (s: Self)
        ensures
            s == (ToolState { feed, spindle_rpm }),
    {
        ToolState { feed, spindle_rpm }
    }
}

} // verus!

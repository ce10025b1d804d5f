//! Level history: what a series is, what it is called, and how a long run of
//! points is cut into buckets for display.
//!
//! The points themselves (min, energy mean and max of each interval) are
//! floating point and live outside this crate. Bucketing keeps the min of the
//! mins and the max of the maxes of every point in a bucket, so what decides
//! whether a peak survives zooming out is whether every point lands in a
//! bucket — and that is the integer part, which stands here.

use vstd::prelude::*;
use crate::spl::TimeWeighting;
use crate::text::{ascii_lower_all, to_ascii_lowercase};
use crate::weighting::Weighting;
use std::collections::VecDeque;

verus! {

/// What a series is measuring.
#[derive(Debug, Clone, PartialEq, Eq)]
pub enum SeriesKind {
    /// Time-weighted sound level, one per frequency and time weighting.
    Spl { weighting: Weighting, time_weighting: TimeWeighting },
    /// Sample peak, per frequency weighting.
    Peak { weighting: Weighting },
    /// One of the user's LEQs, by its own id.
    Leq { id: String },
}

impl SeriesKind {
    /// The series' stable identifier, e.g. `spl:a:f`, `peak:c`, `leq:<id>`.
    pub open spec fn id_text(&self) -> Seq<char> {
        match self {
            SeriesKind::Spl { weighting, time_weighting } => "spl:"@ + ascii_lower_all(
                weighting.label_text(),
            ) + ":"@ + ascii_lower_all(time_weighting.label_text()),
            SeriesKind::Peak { weighting } => "peak:"@ + ascii_lower_all(weighting.label_text()),
            SeriesKind::Leq { id } => "leq:"@ + id@,
        }
    }

    /// What a meter would call it, e.g. `LAF`, `LCpeak`.
    pub open spec fn label_text(&self) -> Seq<char> {
        match self {
            SeriesKind::Spl { weighting, time_weighting } => "L"@ + weighting.label_text()
                + time_weighting.label_text(),
            SeriesKind::Peak { weighting } => "L"@ + weighting.label_text() + "peak"@,
            SeriesKind::Leq { id } => "LEQ "@ + id@,
        }
    }

    /// Stable identifier, used as the history's key across reconfigurations.
    pub fn id(&self) -> (r: String)
        ensures
            r@ == self.id_text(),
    {
        match self {
            SeriesKind::Spl { weighting, time_weighting } => {
                let w = weighting.label();
                let t = time_weighting.label();
                proof {
                    reveal_strlit("A");
                    reveal_strlit("C");
                    reveal_strlit("Z");
                    reveal_strlit("F");
                    reveal_strlit("S");
                    reveal_strlit("I");
                }
                let mut s = String::from_str("spl:");
                s.append(to_ascii_lowercase(w).as_str());
                s.append(":");
                s.append(to_ascii_lowercase(t).as_str());
                s
            },
            SeriesKind::Peak { weighting } => {
                let w = weighting.label();
                proof {
                    reveal_strlit("A");
                    reveal_strlit("C");
                    reveal_strlit("Z");
                }
                let mut s = String::from_str("peak:");
                s.append(to_ascii_lowercase(w).as_str());
                s
            },
            SeriesKind::Leq { id } => {
                let mut s = String::from_str("leq:");
                s.append(id.as_str());
                s
            },
        }
    }

    /// What a meter would call this series.
    pub fn label(&self) -> (r: String)
        ensures
            r@ == self.label_text(),
    {
        match self {
            SeriesKind::Spl { weighting, time_weighting } => {
                let mut s = String::from_str("L");
                s.append(weighting.label());
                s.append(time_weighting.label());
                s
            },
            SeriesKind::Peak { weighting } => {
                let mut s = String::from_str("L");
                s.append(weighting.label());
                s.append("peak");
                s
            },
            SeriesKind::Leq { id } => {
                let mut s = String::from_str("LEQ ");
                s.append(id.as_str());
                s
            },
        }
    }
}

/// A recorded series as the interface lists it.
#[derive(Debug, Clone)]
pub struct SeriesInfo {
    pub id: String,
    pub label: String,
    pub kind: SeriesKind,
}

impl SeriesInfo {
    /// The listing for a series of `kind`: its id and its label, derived from
    /// the kind.
    pub fn describe(kind: SeriesKind) -> (r: Self)
        ensures
            r.kind == kind,
            r.id@ == kind.id_text(),
            r.label@ == kind.label_text(),
    {
        let id = kind.id();
        let label = kind.label();
        SeriesInfo { id, label, kind }
    }
}

/// `a / b` rounded up, for `b > 0`.
pub open spec fn div_ceil(a: nat, b: nat) -> nat {
    if b == 0 {
        0
    } else {
        ((a + b - 1) / b as int) as nat
    }
}

/// Points per bucket when `len` points are shown in at most `max_points`
/// (a request for none is taken as a request for one).
pub open spec fn points_per_bucket(len: nat, max_points: nat) -> nat {
    div_ceil(len, if max_points == 0 { 1 } else { max_points })
}

/// The `k`-th bucket of `len` points cut `per` at a time: `per` points from
/// `k * per`, fewer for the last.
pub open spec fn bucket(k: nat, per: nat, len: nat) -> (nat, nat) {
    (k * per, if (k + 1) * per < len { (k + 1) * per } else { len })
}

/// The shape of the cut: every bucket but the last is full, the last is not
/// empty, and there are no more buckets than were asked for.
proof fn lemma_bucket_shape(len: nat, m: nat)
    requires
        m >= 1,
        len > m,
    ensures
        points_per_bucket(len, m) >= 1,
        div_ceil(len, points_per_bucket(len, m)) <= m,
        div_ceil(len, points_per_bucket(len, m)) >= 1,
        (div_ceil(len, points_per_bucket(len, m)) - 1) * points_per_bucket(len, m) < len,
        div_ceil(len, points_per_bucket(len, m)) * points_per_bucket(len, m) >= len,
{
    let per = points_per_bucket(len, m);
    let count = div_ceil(len, per);
    vstd::arithmetic::div_mod::lemma_fundamental_div_mod((len + m - 1) as int, m as int);
    vstd::arithmetic::div_mod::lemma_mod_pos_bound((len + m - 1) as int, m as int);
    assert(per * m >= len) by (nonlinear_arith)
        requires
            (len + m - 1) as int == m * per + (len + m - 1) as int % m as int,
            (len + m - 1) as int % m as int <= m - 1,
    ;
    assert(per >= 1) by (nonlinear_arith)
        requires
            per * m >= len,
            len > m,
            m >= 1,
    ;
    vstd::arithmetic::div_mod::lemma_fundamental_div_mod((len + per - 1) as int, per as int);
    vstd::arithmetic::div_mod::lemma_mod_pos_bound((len + per - 1) as int, per as int);
    assert(count * per >= len && (count - 1) * per < len) by (nonlinear_arith)
        requires
            (len + per - 1) as int == per * count + (len + per - 1) as int % per as int,
            0 <= (len + per - 1) as int % per as int <= per - 1,
            per >= 1,
    ;
    assert(count <= m) by (nonlinear_arith)
        requires
            (count - 1) * per < len,
            per * m >= len,
            per >= 1,
    ;
    assert(count >= 1) by (nonlinear_arith)
        requires
            count * per >= len,
            len > m,
            m >= 1,
    ;
}

/// How a view of `len` points is cut down to at most `max_points`.
///
/// `None` when the points fit as they are, and are shown unchanged.
/// Otherwise the buckets, in order, as half-open ranges of positions: each
/// holds [`points_per_bucket`] points (the last may hold fewer), rounded up
/// so the last is never left holding a single point of its own making.
pub fn bucket_ranges(len: usize, max_points: usize) -> (r: Option<Vec<(usize, usize)>>)
    ensures
        r is None <==> len <= (if max_points == 0 { 1 } else { max_points }),
        r matches Some(v) ==> {
            let per = points_per_bucket(len as nat, max_points as nat);
            &&& v@.len() == div_ceil(len as nat, per)
            &&& forall|k: int|
                0 <= k < v@.len() ==> (#[trigger] v@[k]).0 == bucket(k as nat, per, len as nat).0
                    && v@[k].1 == bucket(k as nat, per, len as nat).1
        },
{
    let m = if max_points == 0 { 1 } else { max_points };
    if len <= m {
        return None;
    }
    let q = len / m;
    proof {
        vstd::arithmetic::div_mod::lemma_fundamental_div_mod(len as int, m as int);
        vstd::arithmetic::div_mod::lemma_mod_pos_bound(len as int, m as int);
        if m >= 2 {
            assert(q < len) by (nonlinear_arith)
                requires
                    len as int == m * q + len as int % m as int,
                    0 <= len as int % m as int,
                    m >= 2,
                    len > m,
            ;
        } else {
            assert(len as int % m as int == 0);
        }
    }
    let per = if len % m != 0 { q + 1 } else { q };
    assert(per == points_per_bucket(len as nat, max_points as nat)) by {
        vstd::arithmetic::div_mod::lemma_fundamental_div_mod(len as int, m as int);
        vstd::arithmetic::div_mod::lemma_fundamental_div_mod((len + m - 1) as int, m as int);
        vstd::arithmetic::div_mod::lemma_mod_pos_bound(len as int, m as int);
        vstd::arithmetic::div_mod::lemma_mod_pos_bound((len + m - 1) as int, m as int);
        let q = len as int / m as int;
        let rm = len as int % m as int;
        assert((q + 1) * m == q * m + m) by (nonlinear_arith);
        assert(m * q == q * m) by (nonlinear_arith);
        if rm == 0 {
            vstd::arithmetic::div_mod::lemma_fundamental_div_mod_converse(
                (len + m - 1) as int,
                m as int,
                q,
                m - 1,
            );
        } else {
            vstd::arithmetic::div_mod::lemma_fundamental_div_mod_converse(
                (len + m - 1) as int,
                m as int,
                q + 1,
                rm - 1,
            );
        }
    }
    proof {
        lemma_bucket_shape(len as nat, m as nat);
    }
    let ghost count = div_ceil(len as nat, per as nat);
    let mut out: Vec<(usize, usize)> = Vec::new();
    let mut start: usize = 0;
    assert(out@.len() * per == 0) by (nonlinear_arith)
        requires
            out@.len() == 0,
    ;
    while start < len
        invariant
            per >= 1,
            count >= 1,
            (count - 1) * per < len,
            count * per >= len,
            start <= len,
            out@.len() <= count,
            out@.len() < count ==> start == out@.len() * per,
            out@.len() == count ==> start == len,
            forall|k: int|
                0 <= k < out@.len() ==> (#[trigger] out@[k]).0 == bucket(k as nat, per as nat, len as nat).0
                    && out@[k].1 == bucket(k as nat, per as nat, len as nat).1,
        decreases len - start,
    {
        let k = out.len();
        proof {
            if k == count {
                assert(false);
            }
        }
        let end = if len - start <= per { len } else { start + per };
        assert((k + 1) * per == start + per) by (nonlinear_arith)
            requires
                start == k * per,
        ;
        out.push((start, end));
        proof {
            if k + 1 < count {
                assert((k + 1) * per < len) by (nonlinear_arith)
                    requires
                        k + 1 <= count - 1,
                        (count - 1) * per < len,
                        per >= 1,
                ;
            } else {
                assert((k + 1) * per >= len) by (nonlinear_arith)
                    requires
                        k + 1 >= count,
                        count * per >= len,
                        per >= 1,
                ;
            }
        }
        start = end;
    }
    proof {
        if out@.len() < count {
            assert(out@.len() * per < len) by (nonlinear_arith)
                requires
                    out@.len() <= count - 1,
                    (count - 1) * per < len,
                    per >= 1,
            ;
        }
    }
    assert(out@.len() == count);
    Some(out)
}

/// Every point lands in exactly one bucket, the buckets follow one another
/// with no gap and no overlap, none is empty, and there are no more of them
/// than were asked for: so a bucketed view keeps every peak.
pub proof fn lemma_buckets_cover_every_point(len: nat, max_points: nat)
    requires
        len > (if max_points == 0 { 1 } else { max_points }),
    ensures
        ({
            let per = points_per_bucket(len, max_points);
            let count = div_ceil(len, per);
            &&& count <= (if max_points == 0 { 1 } else { max_points })
            &&& bucket(0, per, len).0 == 0
            &&& bucket((count - 1) as nat, per, len).1 == len
            &&& forall|k: nat| k < count ==> #[trigger] bucket(k, per, len).0 < bucket(k, per, len).1
            &&& forall|k: nat| k + 1 < count ==> #[trigger] bucket(k, per, len).1 == bucket(
                k + 1,
                per,
                len,
            ).0
        }),
{
    let m = if max_points == 0 { 1nat } else { max_points };
    lemma_bucket_shape(len, m);
    let per = points_per_bucket(len, max_points);
    let count = div_ceil(len, per);
    assert(bucket((count - 1) as nat, per, len).1 == len) by {
        assert(((count - 1) as nat + 1) * per == count * per);
    }
    assert forall|k: nat| k < count implies #[trigger] bucket(k, per, len).0 < bucket(k, per, len).1 by {
        assert(k * per < len) by (nonlinear_arith)
            requires
                k <= count - 1,
                (count - 1) * per < len,
                per >= 1,
        ;
        assert(k * per < (k + 1) * per) by (nonlinear_arith)
            requires
                per >= 1,
        ;
    }
    assert forall|k: nat| k + 1 < count implies #[trigger] bucket(k, per, len).1 == bucket(
        k + 1,
        per,
        len,
    ).0 by {
        assert((k + 1) * per < len) by (nonlinear_arith)
            requires
                k + 1 <= count - 1,
                (count - 1) * per < len,
                per >= 1,
        ;
    }
}

/// The points one series keeps: the most recent ones, oldest first, no more
/// than the configured span holds.
#[derive(Debug, Clone)]
pub struct PointLog<T> {
    points: VecDeque<T>,
}

impl<T> PointLog<T> {
    /// The points, oldest first.
    pub closed spec fn points(&self) -> Seq<T> {
        self.points@
    }

    /// No points yet.
    pub fn new() -> (r: Self)
        ensures
            r.points() == Seq::<T>::empty(),
    {
        PointLog { points: VecDeque::new() }
    }

    /// How many points are kept.
    pub fn len(&self) -> (r: usize)
        ensures
            r == self.points().len(),
    {
        self.points.len()
    }

    /// Record a point. When the log already holds `capacity` points or more,
    /// the oldest goes to make room: the span bounds what is kept.
    pub fn push(&mut self, point: T, capacity: usize)
        ensures
            final(self).points() == if old(self).points().len() >= capacity && old(
                self,
            ).points().len() > 0 {
                old(self).points().drop_first().push(point)
            } else {
                old(self).points().push(point)
            },
    {
        if self.points.len() >= capacity {
            let _oldest = self.points.pop_front();
        }
        self.points.push_back(point);
        proof {
            if old(self).points().len() >= capacity && old(self).points().len() > 0 {
                assert(old(self).points().subrange(1, old(self).points().len() as int)
                    =~= old(self).points().drop_first());
            }
        }
    }

    /// Drop the oldest points until at most `capacity` are left.
    pub fn keep_latest(&mut self, capacity: usize)
        ensures
            final(self).points() == if old(self).points().len() > capacity {
                old(self).points().subrange(
                    old(self).points().len() - capacity,
                    old(self).points().len() as int,
                )
            } else {
                old(self).points()
            },
    {
        let ghost start = self.points@;
        while self.points.len() > capacity
            invariant
                start.len() >= self.points@.len(),
                self.points@ == start.subrange(start.len() - self.points@.len(), start.len() as int),
                self.points@.len() >= capacity || self.points@ == start,
            decreases self.points@.len(),
        {
            let _oldest = self.points.pop_front();
        }
        assert(start.subrange(0, start.len() as int) =~= start);
    }

    /// The most recent point.
    pub fn last(&self) -> (r: Option<&T>)
        ensures
            self.points().len() == 0 ==> r is None,
            self.points().len() > 0 ==> r == Some(&self.points().last()),
    {
        let n = self.points.len();
        if n == 0 {
            None
        } else {
            Some(&self.points[n - 1])
        }
    }

    /// The point at `i`, oldest first.
    pub fn get(&self, i: usize) -> (r: Option<&T>)
        ensures
            i < self.points().len() ==> r == Some(&self.points()[i as int]),
            i >= self.points().len() ==> r is None,
    {
        if i < self.points.len() {
            Some(&self.points[i])
        } else {
            None
        }
    }

    /// Forget every point.
    pub fn clear(&mut self)
        ensures
            final(self).points() == Seq::<T>::empty(),
    {
        self.points.clear();
    }
}

/// A log kept to a capacity stays within it: pushing onto a log of at most
/// `capacity` points (with room for at least one) leaves at most `capacity`,
/// and the newest point is always the last.
pub proof fn lemma_point_log_stays_bounded<T>(old_points: Seq<T>, point: T, capacity: nat)
    requires
        capacity >= 1,
        old_points.len() <= capacity,
    ensures
        ({
            let new_points = if old_points.len() >= capacity && old_points.len() > 0 {
                old_points.drop_first().push(point)
            } else {
                old_points.push(point)
            };
            &&& new_points.len() <= capacity
            &&& new_points.last() == point
            &&& forall|k: int|
                0 <= k < new_points.len() - 1 ==> #[trigger] new_points[k] == old_points[k
                    + old_points.len() + 1 - new_points.len()]
        }),
{
}


/// Two series are the same series: the same kind with the same weightings,
/// or LEQs with the same id.
pub open spec fn same_series(a: SeriesKind, b: SeriesKind) -> bool {
    match (a, b) {
        (
            SeriesKind::Spl { weighting: w1, time_weighting: t1 },
            SeriesKind::Spl { weighting: w2, time_weighting: t2 },
        ) => w1 == w2 && t1 == t2,
        (SeriesKind::Peak { weighting: w1 }, SeriesKind::Peak { weighting: w2 }) => w1 == w2,
        (SeriesKind::Leq { id: i1 }, SeriesKind::Leq { id: i2 }) => i1@ == i2@,
        _ => false,
    }
}

/// The id is a stable key: two series share an id exactly when they are
/// the same series, so a series keeps its points when it is asked for
/// again, and two different series never share a history.
pub proof fn lemma_ids_tell_series_apart(a: SeriesKind, b: SeriesKind)
    ensures
        a.id_text() == b.id_text() <==> same_series(a, b),
{
    reveal_strlit("spl:");
    reveal_strlit("peak:");
    reveal_strlit("leq:");
    reveal_strlit(":");
    reveal_strlit("A");
    reveal_strlit("C");
    reveal_strlit("Z");
    reveal_strlit("F");
    reveal_strlit("S");
    reveal_strlit("I");
    let x = a.id_text();
    let y = b.id_text();
    if x == y {
        assert(x[0] == y[0]);
        match (a, b) {
            (SeriesKind::Spl { .. }, SeriesKind::Spl { .. }) => {
                assert(x[4] == y[4]);
                assert(x[6] == y[6]);
            },
            (SeriesKind::Peak { .. }, SeriesKind::Peak { .. }) => {
                assert(x[5] == y[5]);
            },
            (SeriesKind::Leq { id: i1 }, SeriesKind::Leq { id: i2 }) => {
                assert(x.subrange(4, x.len() as int) =~= i1@);
                assert(y.subrange(4, y.len() as int) =~= i2@);
            },
            (SeriesKind::Spl { .. }, _) => {},
            (SeriesKind::Peak { .. }, _) => {},
            (SeriesKind::Leq { .. }, _) => {},
        }
    }
}

} // verus!

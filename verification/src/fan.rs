//! Curve data model: named, ordered fan curves and linear interpolation.
//!
//! A curve is a sequence of `(temperature, duty)` points kept sorted
//! ascending by temperature.  Temperatures are whole degrees Celsius
//! (`i16`), duties are ten-thousandths of full drive (`u16`, `10000` =
//! 100%).

use vstd::prelude::*;

verus! {

/// One point of a fan curve: a temperature (degrees Celsius) and the fan
/// duty to drive at that temperature (ten-thousandths, 0-10000).
#[derive(Clone, Copy, PartialEq, Eq, Structural, Debug)]
pub struct FanPoint {
    pub temp: i16,
    pub duty: u16,
}

impl FanPoint {
    pub fn new(temp: i16, duty: u16) -> (p: FanPoint)
        ensures
            p.temp == temp,
            p.duty == duty,
    {
        FanPoint { temp, duty }
    }
}

/// The points are sorted ascending by temperature (duplicates allowed).
pub open spec fn points_sorted(s: Seq<FanPoint>) -> bool {
    forall|i: int, j: int| 0 <= i < j < s.len() ==> s[i].temp <= s[j].temp
}

/// The temperatures are strictly increasing: no two points share one.
pub open spec fn temps_distinct(s: Seq<FanPoint>) -> bool {
    forall|i: int, j: int| 0 <= i < j < s.len() ==> s[i].temp < s[j].temp
}

/// Division rounded half away from zero, for `b > 0`.
pub open spec fn round_div(a: int, b: int) -> int
    recommends
        b > 0,
{
    if a >= 0 {
        (2 * a + b) / (2 * b)
    } else {
        -((2 * (-a) + b) / (2 * b))
    }
}

/// Linear interpolation between two curve points at temperature `t`,
/// rounded to the nearest duty.
pub open spec fn lerp_duty(p1: FanPoint, p2: FanPoint, t: int) -> int
    recommends
        p1.temp < p2.temp,
{
    p1.duty + round_div((t - p1.temp) * (p2.duty - p1.duty), p2.temp - p1.temp)
}

/// Index of the pair that brackets temperature `t` during an ascending
/// scan from position `j`: the first `k >= j` with `t <= s[k + 1].temp`,
/// or the last pair if none.
pub open spec fn bracket_from(s: Seq<FanPoint>, t: int, j: int) -> int
    recommends
        0 <= j <= s.len() - 2,
    decreases s.len() - j,
{
    if j >= s.len() - 2 {
        j
    } else if t <= s[j + 1].temp {
        j
    } else {
        bracket_from(s, t, j + 1)
    }
}

/// The duty a curve with points `s` yields at temperature `t` (degrees):
/// 0 on an empty curve, the first point's duty at or below the lowest
/// temperature, the last point's duty at or above the highest, and the
/// rounded linear interpolation over the bracketing pair in between.
pub open spec fn spec_interp(s: Seq<FanPoint>, t: int) -> int {
    if s.len() == 0 {
        0
    } else if t <= s[0].temp {
        s[0].duty as int
    } else if t >= s[s.len() - 1].temp {
        s[s.len() - 1].duty as int
    } else {
        let j = bracket_from(s, t, 0);
        if s[j].temp < s[j + 1].temp {
            lerp_duty(s[j], s[j + 1], t)
        } else {
            s[j + 1].duty as int
        }
    }
}

/// The whole degrees that the hardware's thousandths-of-Celsius reading
/// stands for, truncated to `i16` as the conversion in the readers does.
pub open spec fn degrees_of_thousandths(tt: u32) -> int {
    let q = (tt / 1000) as int;
    let r = q % 65536;
    if r >= 32768 {
        r - 65536
    } else {
        r
    }
}

/// A named, ordered set of fan-curve points.
pub struct FanCurve {
    name: String,
    points: Vec<FanPoint>,
}

impl FanCurve {
    /// The curve's name.
    pub closed spec fn spec_name(&self) -> Seq<char> {
        self.name@
    }

    /// The curve's points, in storage order.
    pub closed spec fn spec_points(&self) -> Seq<FanPoint> {
        self.points@
    }

    /// A well-formed curve keeps its points sorted ascending by
    /// temperature.
    pub open spec fn wf(&self) -> bool {
        points_sorted(self.spec_points())
    }

    pub fn new(name: String) -> (c: FanCurve)
        ensures
            c.spec_name() == name@,
            c.spec_points() == Seq::<FanPoint>::empty(),
            c.wf(),
    {
        let c = FanCurve { name, points: Vec::new() };
        proof {
            assert(c.spec_points() =~= Seq::<FanPoint>::empty());
        }
        c
    }

    pub fn name(&self) -> (r: &str)
        ensures
            r@ == self.spec_name(),
    {
        self.name.as_str()
    }

    pub fn set_name(&mut self, name: String)
        ensures
            final(self).spec_name() == name@,
            final(self).spec_points() == old(self).spec_points(),
    {
        self.name = name;
    }

    /// The points vector, for the crate's own readers.
    pub(crate) fn points_ref(&self) -> (r: &Vec<FanPoint>)
        ensures
            r@ == self.spec_points(),
    {
        &self.points
    }

    pub fn points(&self) -> (r: &[FanPoint])
        ensures
            r@ == self.spec_points(),
    {
        self.points.as_slice()
    }

    /// Direct mutable access to the points.  A caller that unsorts them
    /// leaves the curve outside `wf`.
    pub fn points_mut(&mut self) -> (r: &mut Vec<FanPoint>)
        ensures
            (*r)@ == old(self).spec_points(),
            final (self).spec_points() == final (r)@,
            final (self).spec_name() == old(self).spec_name(),
    {
        &mut self.points
    }

    /// Whether the points are sorted ascending by temperature — whether
    /// the curve is well-formed.
    pub fn is_sorted(&self) -> (r: bool)
        ensures
            r == self.wf(),
    {
        let n = self.points.len();
        let mut i: usize = 1;
        while i < n
            invariant
                1 <= i <= n || n == 0,
                n == self.spec_points().len(),
                forall|a: int, b: int|
                    0 <= a < b < i ==> self.spec_points()[a].temp <= self.spec_points()[b].temp,
            decreases n - i,
        {
            if self.points[i - 1].temp > self.points[i].temp {
                return false;
            }
            i = i + 1;
        }
        true
    }

    pub fn get_point(&self, index: usize) -> (r: Option<&FanPoint>)
        ensures
            index < self.spec_points().len() ==> (r matches Some(p) && *p
                == self.spec_points()[index as int]),
            index >= self.spec_points().len() ==> r is None,
    {
        if index < self.points.len() {
            Some(&self.points[index])
        } else {
            None
        }
    }

    /// Inserts a point, keeping the points sorted ascending by
    /// temperature; a point with an already-present temperature goes
    /// after the points that share it, as a stable sort after a push
    /// would place it.
    pub fn add_point(&mut self, temp: i16, duty: u16)
        ensures
            final (self).spec_points() == old(self).spec_points().insert(
                insert_pos(old(self).spec_points(), temp),
                FanPoint { temp, duty },
            ),
            old(self).wf() ==> final (self).wf(),
            final (self).spec_name() == old(self).spec_name(),
            (forall|k: int|
                0 <= k < old(self).spec_points().len() ==> (#[trigger] old(
                    self,
                ).spec_points()[k]).temp <= temp) ==> final (self).spec_points() == old(
                self,
            ).spec_points().push(FanPoint { temp, duty }),
    {
        let point = FanPoint { temp, duty };
        let ghost s = self.points@;
        let mut idx: usize = 0;
        while idx < self.points.len() && self.points[idx].temp <= temp
            invariant
                0 <= idx <= self.points.len(),
                forall|k: int| 0 <= k < idx ==> self.points@[k].temp <= temp,
                *self == *old(self),
            decreases self.points.len() - idx,
        {
            idx = idx + 1;
        }
        proof {
            lemma_insert_pos_unique(s, temp, idx as int);
            if old(self).wf() {
                lemma_insert_keeps_sorted(s, temp, duty);
            }
            if forall|k: int| 0 <= k < s.len() ==> (#[trigger] s[k]).temp <= temp {
                assert(idx == s.len());
                assert(s.insert(s.len() as int, point) =~= s.push(point));
            }
        }
        self.points.insert(idx, point);
    }

    /// Calculates the fan duty for a temperature given in thousandths of
    /// a degree Celsius: 0 on an empty curve, clamped to the first or
    /// last point's duty outside the curve's range, and the rounded
    /// linear interpolation over the bracketing pair inside it.  The
    /// result is in ten-thousandths of full drive.
    pub fn calculate_duty_for_temperature(&self, temp_thousandths: u32) -> (duty: u16)
        requires
            self.wf(),
        ensures
            duty as int == spec_interp(
                self.spec_points(),
                degrees_of_thousandths(temp_thousandths),
            ),
    {
        let ghost s = self.spec_points();
        if self.points.len() == 0 {
            return 0;
        }
        // Whole degrees, truncated to i16 as the sensor readers hand
        // them over.
        let q: u32 = temp_thousandths / 1000;
        let r: u32 = q % 65536;
        let temp: i16 = if r >= 32768 {
            ((r as i32) - 65536) as i16
        } else {
            r as i16
        };
        assert(temp as int == degrees_of_thousandths(temp_thousandths));

        if temp <= self.points[0].temp {
            return self.points[0].duty;
        }
        let last = self.points.len() - 1;
        if temp >= self.points[last].temp {
            return self.points[last].duty;
        }
        let mut i: usize = 0;
        while i < last
            invariant
                self.wf(),
                s == self.spec_points(),
                2 <= self.spec_points().len(),
                last == self.spec_points().len() - 1,
                0 <= i <= last,
                temp as int == degrees_of_thousandths(temp_thousandths),
                s[0].temp < temp,
                temp < s[last as int].temp,
                forall|k: int| 0 <= k < i ==> temp > #[trigger] s[k + 1].temp,
            decreases last - i,
        {
            if temp <= self.points[i + 1].temp {
                proof {
                    lemma_bracket_unique(s, temp as int, 0, i as int);
                }
                assert(s[i as int].temp < temp) by {
                    if i > 0 {
                        assert(temp > s[(i - 1) + 1].temp);
                    }
                }
                let p1 = self.points[i];
                let p2 = self.points[i + 1];
                let tspan: u64 = ((p2.temp as i64) - (p1.temp as i64)) as u64;
                let tdelta: u64 = ((temp as i64) - (p1.temp as i64)) as u64;
                assert(0 < tdelta <= tspan <= 65535);
                if p2.duty >= p1.duty {
                    let dd: u64 = (p2.duty - p1.duty) as u64;
                    assert(2 * tdelta * dd <= 131070 * 65535) by (nonlinear_arith)
                        requires
                            0 <= tdelta <= 65535,
                            0 <= dd <= 65535,
                    ;
                    let qv: u64 = (2 * tdelta * dd + tspan) / (2 * tspan);
                    proof {
                        let a = (tdelta as int) * (dd as int);
                        assert((temp - p1.temp) * (p2.duty - p1.duty) == a) by (nonlinear_arith)
                            requires
                                temp - p1.temp == tdelta as int,
                                p2.duty - p1.duty == dd as int,
                                a == (tdelta as int) * (dd as int),
                        ;
                        assert(a <= (tspan as int) * (dd as int)) by (nonlinear_arith)
                            requires
                                0 < tdelta <= tspan,
                                0 <= dd,
                                a == (tdelta as int) * (dd as int),
                        ;
                        lemma_round_div_le(a, tspan as int, dd as int);
                        assert((2 * tdelta) * dd == 2 * a) by (nonlinear_arith)
                            requires
                                a == (tdelta as int) * (dd as int),
                        ;
                        assert(qv == round_div(a, tspan as int));
                    }
                    return p1.duty + (qv as u16);
                } else {
                    let dd: u64 = (p1.duty - p2.duty) as u64;
                    assert(2 * tdelta * dd <= 131070 * 65535) by (nonlinear_arith)
                        requires
                            0 <= tdelta <= 65535,
                            0 <= dd <= 65535,
                    ;
                    let qv: u64 = (2 * tdelta * dd + tspan) / (2 * tspan);
                    proof {
                        let a = (tdelta as int) * (dd as int);
                        assert((temp - p1.temp) * (p2.duty - p1.duty) == -a) by (nonlinear_arith)
                            requires
                                temp - p1.temp == tdelta as int,
                                p2.duty - p1.duty == -(dd as int),
                                a == (tdelta as int) * (dd as int),
                        ;
                        assert(a > 0) by (nonlinear_arith)
                            requires
                                tdelta > 0,
                                dd > 0,
                                a == (tdelta as int) * (dd as int),
                        ;
                        assert(a <= (tspan as int) * (dd as int)) by (nonlinear_arith)
                            requires
                                0 < tdelta <= tspan,
                                0 <= dd,
                                a == (tdelta as int) * (dd as int),
                        ;
                        lemma_round_div_le(a, tspan as int, dd as int);
                        assert((2 * tdelta) * dd == 2 * a) by (nonlinear_arith)
                            requires
                                a == (tdelta as int) * (dd as int),
                        ;
                        assert(round_div(-a, tspan as int) == -(qv as int));
                    }
                    return p1.duty - (qv as u16);
                }
            }
            i = i + 1;
        }
        proof {
            assert(temp > s[(last - 1) + 1].temp);
        }
        0
    }

    /// The built-in reference curve for standard desktop processors.
    pub fn standard() -> (c: FanCurve)
        ensures
            c.spec_name() == "Standard"@,
            c.spec_points() == standard_points(),
            c.wf(),
    {
        let mut curve = FanCurve::new("Standard".to_owned());
        curve.add_point(0, 0);
        curve.add_point(30, 2000);
        curve.add_point(40, 3000);
        curve.add_point(50, 4000);
        curve.add_point(60, 5000);
        curve.add_point(70, 6000);
        curve.add_point(80, 7000);
        curve.add_point(90, 8000);
        curve.add_point(100, 10000);
        proof {
            assert(curve.spec_points() =~= standard_points());
        }
        curve
    }

    /// The built-in reference curve for high-core-count processors.
    pub fn threadripper2() -> (c: FanCurve)
        ensures
            c.spec_name() == "Threadripper 2"@,
            c.spec_points() == threadripper2_points(),
            c.wf(),
    {
        let mut curve = FanCurve::new("Threadripper 2".to_owned());
        curve.add_point(0, 0);
        curve.add_point(25, 1000);
        curve.add_point(35, 2000);
        curve.add_point(45, 3000);
        curve.add_point(55, 4000);
        curve.add_point(65, 5000);
        curve.add_point(75, 6000);
        curve.add_point(85, 7000);
        curve.add_point(95, 8000);
        curve.add_point(100, 10000);
        proof {
            assert(curve.spec_points() =~= threadripper2_points());
        }
        curve
    }

    /// The built-in reference curve for workstation processors.
    pub fn hedt() -> (c: FanCurve)
        ensures
            c.spec_name() == "HEDT"@,
            c.spec_points() == hedt_points(),
            c.wf(),
    {
        let mut curve = FanCurve::new("HEDT".to_owned());
        curve.add_point(0, 0);
        curve.add_point(20, 1500);
        curve.add_point(30, 2500);
        curve.add_point(40, 3500);
        curve.add_point(50, 4500);
        curve.add_point(60, 5500);
        curve.add_point(70, 6500);
        curve.add_point(80, 7500);
        curve.add_point(90, 8500);
        curve.add_point(100, 10000);
        proof {
            assert(curve.spec_points() =~= hedt_points());
        }
        curve
    }

    /// The built-in reference curve for server processors.
    pub fn xeon() -> (c: FanCurve)
        ensures
            c.spec_name() == "Xeon"@,
            c.spec_points() == xeon_points(),
            c.wf(),
    {
        let mut curve = FanCurve::new("Xeon".to_owned());
        curve.add_point(0, 0);
        curve.add_point(15, 500);
        curve.add_point(25, 1500);
        curve.add_point(35, 2500);
        curve.add_point(45, 3500);
        curve.add_point(55, 4500);
        curve.add_point(65, 5500);
        curve.add_point(75, 6500);
        curve.add_point(85, 7500);
        curve.add_point(95, 8500);
        curve.add_point(100, 10000);
        proof {
            assert(curve.spec_points() =~= xeon_points());
        }
        curve
    }

    /// Removes and returns the last point, if any.
    pub fn remove_last_point(&mut self) -> (r: Option<FanPoint>)
        ensures
            old(self).spec_points().len() == 0 ==> r is None && final (self).spec_points() == old(
                self,
            ).spec_points(),
            old(self).spec_points().len() > 0 ==> r == Some(old(self).spec_points().last())
                && final (self).spec_points() == old(self).spec_points().drop_last(),
            final (self).spec_name() == old(self).spec_name(),
            old(self).wf() ==> final (self).wf(),
    {
        self.points.pop()
    }

    /// Removes and returns the point at `index`; `None` if out of range.
    pub fn remove_point(&mut self, index: usize) -> (r: Option<FanPoint>)
        ensures
            index < old(self).spec_points().len() ==> r == Some(
                old(self).spec_points()[index as int],
            ) && final (self).spec_points() == old(self).spec_points().remove(index as int),
            index >= old(self).spec_points().len() ==> r is None && final (self).spec_points()
                == old(self).spec_points(),
            final (self).spec_name() == old(self).spec_name(),
            old(self).wf() ==> final (self).wf(),
    {
        if index < self.points.len() {
            let p = self.points.remove(index);
            proof {
                old(self).spec_points().remove_ensures(index as int);
            }
            Some(p)
        } else {
            None
        }
    }
}

/// The position a new point with temperature `temp` takes in `s`: the
/// index of the first point whose temperature exceeds `temp`, or the
/// length of `s` if none does.
pub open spec fn insert_pos(s: Seq<FanPoint>, temp: i16) -> int
    decreases s.len(),
{
    if s.len() == 0 {
        0
    } else if s[0].temp > temp {
        0
    } else {
        1 + insert_pos(s.drop_first(), temp)
    }
}

/// `insert_pos` is the unique index below which every temperature is at
/// most `temp` and at which, if it exists, the temperature exceeds it.
proof fn lemma_insert_pos_unique(s: Seq<FanPoint>, temp: i16, i: int)
    requires
        0 <= i <= s.len(),
        forall|k: int| 0 <= k < i ==> s[k].temp <= temp,
        i < s.len() ==> s[i].temp > temp,
    ensures
        insert_pos(s, temp) == i,
    decreases s.len(),
{
    if s.len() == 0 {
    } else if s[0].temp > temp {
        assert(i == 0);
    } else {
        assert(i >= 1);
        lemma_insert_pos_unique(s.drop_first(), temp, i - 1);
    }
}

/// Inserting at `insert_pos` keeps a sorted point sequence sorted.
proof fn lemma_insert_keeps_sorted(s: Seq<FanPoint>, temp: i16, duty: u16)
    requires
        points_sorted(s),
    ensures
        points_sorted(s.insert(insert_pos(s, temp), FanPoint { temp, duty })),
{
    let i = insert_pos(s, temp);
    lemma_insert_pos_range(s, temp);
    let t = s.insert(i, FanPoint { temp, duty });
    s.insert_ensures(i, FanPoint { temp, duty });
    assert forall|a: int, b: int| 0 <= a < b < t.len() implies t[a].temp <= t[b].temp by {
        if a < i && b < i {
        } else if a < i && b == i {
        } else if a < i && b > i {
        } else if a == i {
            if b > i {
                assert(t[b] == s[b - 1]);
                assert(s[b - 1].temp > temp) by {
                    if b - 1 > i {
                        assert(s[i].temp <= s[b - 1].temp);
                    }
                }
            }
        } else {
        }
    }
}

/// `x / d == q` exactly when `x` lies in `[d*q, d*(q+1))`.
pub proof fn lemma_div_range(x: int, d: int, q: int)
    requires
        d > 0,
        d * q <= x < d * (q + 1),
    ensures
        x / d == q,
{
    let r = x - d * q;
    assert(d * (q + 1) == d * q + d) by (nonlinear_arith);
    assert(x == q * d + r) by (nonlinear_arith)
        requires
            r == x - d * q,
    ;
    vstd::arithmetic::div_mod::lemma_fundamental_div_mod_converse_div(x, d, q, r);
}

/// For `0 <= a <= b*c`, the rounded quotient stays within `[0, c]`.
pub proof fn lemma_round_div_le(a: int, b: int, c: int)
    requires
        b > 0,
        0 <= a,
        a <= b * c,
    ensures
        0 <= round_div(a, b) <= c,
{
    let x = 2 * a + b;
    let d = 2 * b;
    vstd::arithmetic::div_mod::lemma_div_pos_is_pos(x, d);
    vstd::arithmetic::div_mod::lemma_fundamental_div_mod(x, d);
    vstd::arithmetic::div_mod::lemma_mod_bound(x, d);
    if x / d > c {
        assert(d * (x / d) >= d * (c + 1)) by (nonlinear_arith)
            requires
                x / d >= c + 1,
                d > 0,
        ;
        assert(d * (c + 1) == 2 * (b * c) + 2 * b) by (nonlinear_arith)
            requires
                d == 2 * b,
        ;
        assert(false);
    }
}

/// Rounding an exact multiple of the divisor recovers the factor.
pub proof fn lemma_round_div_exact(b: int, c: int)
    requires
        b > 0,
    ensures
        round_div(b * c, b) == c,
{
    if c >= 0 {
        assert(b * c >= 0) by (nonlinear_arith)
            requires
                b > 0,
                c >= 0,
        ;
        assert((2 * b) * c <= 2 * (b * c) + b && 2 * (b * c) + b < (2 * b) * (c + 1))
            by (nonlinear_arith)
            requires
                b > 0,
        ;
        lemma_div_range(2 * (b * c) + b, 2 * b, c);
    } else {
        assert(b * c < 0) by (nonlinear_arith)
            requires
                b > 0,
                c < 0,
        ;
        assert(-(b * c) == b * (-c)) by (nonlinear_arith);
        assert((2 * b) * (-c) <= 2 * (b * (-c)) + b && 2 * (b * (-c)) + b < (2 * b) * ((-c) + 1))
            by (nonlinear_arith)
            requires
                b > 0,
        ;
        lemma_div_range(2 * (b * (-c)) + b, 2 * b, -c);
    }
}

/// The scan's result is the first index at or after `j` whose successor
/// temperature reaches `t`.
proof fn lemma_bracket_unique(s: Seq<FanPoint>, t: int, j: int, i: int)
    requires
        0 <= j <= i <= s.len() - 2,
        forall|k: int| j <= k < i ==> t > #[trigger] s[k + 1].temp,
        i == s.len() - 2 || t <= s[i + 1].temp,
    ensures
        bracket_from(s, t, j) == i,
    decreases i - j,
{
    if j < i {
        lemma_bracket_unique(s, t, j + 1, i);
    }
}

impl Clone for FanCurve {
    fn clone(&self) -> (r: Self)
        ensures
            r.spec_name() == self.spec_name(),
            r.spec_points() == self.spec_points(),
    {
        let mut pts: Vec<FanPoint> = Vec::new();
        let mut i: usize = 0;
        while i < self.points.len()
            invariant
                0 <= i <= self.points.len(),
                pts@ == self.points@.subrange(0, i as int),
            decreases self.points.len() - i,
        {
            pts.push(self.points[i]);
            proof {
                assert(pts@ =~= self.points@.subrange(0, i + 1));
            }
            i = i + 1;
        }
        proof {
            assert(pts@ =~= self.points@);
        }
        FanCurve { name: self.name.clone(), points: pts }
    }
}

/// A curve store: the owned set of curves and the default selection.
pub struct FanCurveConfig {
    pub curves: Vec<FanCurve>,
    pub default_curve_index: Option<usize>,
}

impl FanCurveConfig {
    /// A well-formed configuration holds only well-formed curves, and its
    /// default selection, if any, is in range.
    pub open spec fn wf(&self) -> bool {
        &&& forall|i: int| 0 <= i < self.curves@.len() ==> (#[trigger] self.curves@[i]).wf()
        &&& match self.default_curve_index {
            Some(d) => d < self.curves@.len(),
            None => true,
        }
    }

    /// The configuration synthesized on first start: the four built-in
    /// reference curves, with the first selected as default.
    pub fn new() -> (c: FanCurveConfig)
        ensures
            is_default_config(&c),
            c.wf(),
    {
        let mut curves: Vec<FanCurve> = Vec::new();
        curves.push(FanCurve::standard());
        curves.push(FanCurve::threadripper2());
        curves.push(FanCurve::hedt());
        curves.push(FanCurve::xeon());
        FanCurveConfig { curves, default_curve_index: Some(0) }
    }
}

impl Clone for FanCurveConfig {
    fn clone(&self) -> (r: Self)
        ensures
            r.curves@.len() == self.curves@.len(),
            forall|i: int|
                0 <= i < self.curves@.len() ==> (#[trigger] r.curves@[i]).spec_name()
                    == self.curves@[i].spec_name() && r.curves@[i].spec_points()
                    == self.curves@[i].spec_points(),
            r.default_curve_index == self.default_curve_index,
    {
        let mut curves: Vec<FanCurve> = Vec::new();
        let mut i: usize = 0;
        while i < self.curves.len()
            invariant
                0 <= i <= self.curves.len(),
                curves@.len() == i,
                forall|k: int|
                    0 <= k < i ==> (#[trigger] curves@[k]).spec_name()
                        == self.curves@[k].spec_name() && curves@[k].spec_points()
                        == self.curves@[k].spec_points(),
            decreases self.curves.len() - i,
        {
            curves.push(self.curves[i].clone());
            i = i + 1;
        }
        FanCurveConfig {
            curves,
            default_curve_index: match self.default_curve_index {
                Some(d) => Some(d),
                None => None,
            },
        }
    }
}

/// Whether a configuration is exactly the built-in default: the four
/// reference curves, with the first selected.
pub open spec fn is_default_config(c: &FanCurveConfig) -> bool {
    &&& c.curves@.len() == 4
    &&& c.curves@[0].spec_name() == "Standard"@
    &&& c.curves@[0].spec_points() == standard_points()
    &&& c.curves@[1].spec_name() == "Threadripper 2"@
    &&& c.curves@[1].spec_points() == threadripper2_points()
    &&& c.curves@[2].spec_name() == "HEDT"@
    &&& c.curves@[2].spec_points() == hedt_points()
    &&& c.curves@[3].spec_name() == "Xeon"@
    &&& c.curves@[3].spec_points() == xeon_points()
    &&& c.default_curve_index == Some(0usize)
}

/// The points of the built-in "Standard" curve.
pub open spec fn standard_points() -> Seq<FanPoint> {
    seq![
        FanPoint { temp: 0, duty: 0 },
        FanPoint { temp: 30, duty: 2000 },
        FanPoint { temp: 40, duty: 3000 },
        FanPoint { temp: 50, duty: 4000 },
        FanPoint { temp: 60, duty: 5000 },
        FanPoint { temp: 70, duty: 6000 },
        FanPoint { temp: 80, duty: 7000 },
        FanPoint { temp: 90, duty: 8000 },
        FanPoint { temp: 100, duty: 10000 },
    ]
}

/// The points of the built-in "Threadripper 2" curve.
pub open spec fn threadripper2_points() -> Seq<FanPoint> {
    seq![
        FanPoint { temp: 0, duty: 0 },
        FanPoint { temp: 25, duty: 1000 },
        FanPoint { temp: 35, duty: 2000 },
        FanPoint { temp: 45, duty: 3000 },
        FanPoint { temp: 55, duty: 4000 },
        FanPoint { temp: 65, duty: 5000 },
        FanPoint { temp: 75, duty: 6000 },
        FanPoint { temp: 85, duty: 7000 },
        FanPoint { temp: 95, duty: 8000 },
        FanPoint { temp: 100, duty: 10000 },
    ]
}

/// The points of the built-in "HEDT" curve.
pub open spec fn hedt_points() -> Seq<FanPoint> {
    seq![
        FanPoint { temp: 0, duty: 0 },
        FanPoint { temp: 20, duty: 1500 },
        FanPoint { temp: 30, duty: 2500 },
        FanPoint { temp: 40, duty: 3500 },
        FanPoint { temp: 50, duty: 4500 },
        FanPoint { temp: 60, duty: 5500 },
        FanPoint { temp: 70, duty: 6500 },
        FanPoint { temp: 80, duty: 7500 },
        FanPoint { temp: 90, duty: 8500 },
        FanPoint { temp: 100, duty: 10000 },
    ]
}

/// The points of the built-in "Xeon" curve.
pub open spec fn xeon_points() -> Seq<FanPoint> {
    seq![
        FanPoint { temp: 0, duty: 0 },
        FanPoint { temp: 15, duty: 500 },
        FanPoint { temp: 25, duty: 1500 },
        FanPoint { temp: 35, duty: 2500 },
        FanPoint { temp: 45, duty: 3500 },
        FanPoint { temp: 55, duty: 4500 },
        FanPoint { temp: 65, duty: 5500 },
        FanPoint { temp: 75, duty: 6500 },
        FanPoint { temp: 85, duty: 7500 },
        FanPoint { temp: 95, duty: 8500 },
        FanPoint { temp: 100, duty: 10000 },
    ]
}

/// Law: on a non-empty sorted curve, interpolation at any temperature at
/// or below the first point's clamps to the first point's duty.
pub proof fn lemma_interp_clamp_low(s: Seq<FanPoint>, t: int)
    requires
        points_sorted(s),
        s.len() >= 1,
        t <= s[0].temp,
    ensures
        spec_interp(s, t) == s[0].duty,
{
}

/// Law: on a non-empty sorted curve, interpolation at any temperature at
/// or above the last point's clamps to the last point's duty.  When every
/// point shares one temperature equal to `t`, the first point's duty wins
/// instead, so that case is excluded here.
pub proof fn lemma_interp_clamp_high(s: Seq<FanPoint>, t: int)
    requires
        points_sorted(s),
        s.len() >= 1,
        t >= s[s.len() - 1].temp,
        s.len() == 1 || t > s[0].temp,
    ensures
        spec_interp(s, t) == s[s.len() - 1].duty,
{
}

/// Law: on a curve whose temperatures are strictly increasing,
/// interpolation at an existing point's exact temperature returns that
/// point's duty.
pub proof fn lemma_interp_exact_point(s: Seq<FanPoint>, i: int)
    requires
        temps_distinct(s),
        0 <= i < s.len(),
    ensures
        spec_interp(s, s[i].temp as int) == s[i].duty,
{
    assert(points_sorted(s));
    let t = s[i].temp as int;
    if i == 0 {
    } else if i == s.len() - 1 {
        assert(s[0].temp < t);
    } else {
        assert(s[0].temp < t);
        assert(t < s[s.len() - 1].temp);
        assert(forall|k: int| 0 <= k < i - 1 ==> t > #[trigger] s[k + 1].temp);
        lemma_bracket_unique(s, t, 0, i - 1);
        let b = s[i].temp - s[i - 1].temp;
        let c = s[i].duty - s[i - 1].duty;
        lemma_round_div_exact(b, c);
        assert((t - s[i - 1].temp) * (s[i].duty - s[i - 1].duty) == b * c);
    }
}

/// Below `insert_pos` every temperature is at most `temp`; at and above
/// it (in a sorted sequence) every temperature exceeds it.
proof fn lemma_insert_pos_range(s: Seq<FanPoint>, temp: i16)
    requires
        points_sorted(s),
    ensures
        0 <= insert_pos(s, temp) <= s.len(),
        forall|k: int| 0 <= k < insert_pos(s, temp) ==> s[k].temp <= temp,
        forall|k: int| insert_pos(s, temp) <= k < s.len() ==> s[k].temp > temp,
    decreases s.len(),
{
    if s.len() == 0 {
    } else if s[0].temp > temp {
        assert(forall|k: int| 0 <= k < s.len() ==> s[0].temp <= #[trigger] s[k].temp);
    } else {
        assert(points_sorted(s.drop_first())) by {
            assert(forall|a: int, b: int|
                0 <= a < b < s.drop_first().len() ==> s.drop_first()[a] == s[a + 1]
                    && s.drop_first()[b] == s[b + 1]);
        }
        lemma_insert_pos_range(s.drop_first(), temp);
        assert(forall|k: int|
            1 <= k < insert_pos(s, temp) ==> s[k] == s.drop_first()[k - 1]);
        assert(forall|k: int|
            insert_pos(s, temp) <= k < s.len() ==> s[k] == s.drop_first()[k - 1]);
    }
}

} // verus!

use vstd::prelude::*;

verus! {

/// One field of a CRON expression (seconds, minutes, hours, day of month, month, day of week
/// or year), in the Quartz flavour of the syntax.
#[derive(Debug, PartialEq, Eq)]
pub enum CronField {
    /// `*`: every value.
    Wildcard,
    /// A single value such as `5`.
    Exact(u32),
    /// An inclusive range such as `1-5`.
    Range(u32, u32),
    /// A stepped field such as `*/15` or `0/5`.
    Step(Box<CronField>, u32),
    /// A comma separated list such as `9,12,15`.
    List(Vec<CronField>),
    /// `?`: no specific value (day of month or day of week only).
    Unspecified,
    /// `L`, `L-3` (day of month) or `6L` (day of week).
    Last(Option<i8>),
    /// `15W`: the weekday nearest to the given day of month (`0` stands for `LW`).
    NearestWeekday(u32),
    /// `6#3`: the n-th given weekday of the month.
    NthWeekday(u32, u32),
}

impl Default for CronField {
    /// `*`.
    fn default() -> (r: Self)
        ensures
            r == CronField::Wildcard,
    {
        CronField::Wildcard
    }
}

pub open spec fn option_min(a: Option<int>, b: int) -> int {
    match a {
        Some(x) => if x <= b { x } else { b },
        None => b,
    }
}

pub open spec fn option_max(a: Option<int>, b: int) -> int {
    match a {
        Some(x) => if x >= b { x } else { b },
        None => b,
    }
}

impl CronField {
    /// The smallest value the field can stand for (the lower end of its search range).
    pub open spec fn min_value(self) -> int
        decreases self, 0nat,
    {
        match self {
            CronField::Wildcard => 0,
            CronField::Exact(v) => v as int,
            CronField::Range(start, _) => start as int,
            CronField::Step(base, _) => base.min_value(),
            CronField::List(fields) => match CronField::list_min(fields, fields.len() as nat) {
                Some(m) => m,
                None => 0,
            },
            CronField::Unspecified => 0,
            CronField::Last(_) | CronField::NearestWeekday(_) | CronField::NthWeekday(_, _) => 1,
        }
    }

    /// Minimum of the `min_value` of the first `n` items of a list.
    pub open spec fn list_min(fields: Vec<CronField>, n: nat) -> Option<int>
        decreases fields, n,
    {
        if n == 0 || n > fields.len() {
            None
        } else {
            Some(option_min(CronField::list_min(fields, (n - 1) as nat), fields[n - 1].min_value()))
        }
    }

    /// The largest value the field names (for a step, the last value its base reaches).
    pub open spec fn max_value(self) -> int
        decreases self, 0nat,
    {
        match self {
            CronField::Wildcard => 59,
            CronField::Exact(v) => v as int,
            CronField::Range(_, end) => end as int,
            CronField::Step(base, step) => {
                let bmax = base.max_value();
                let bmin = base.min_value();
                bmax - (bmax - bmin) % (step as int)
            },
            CronField::List(fields) => match CronField::list_max(fields, fields.len() as nat) {
                Some(m) => m,
                None => 59,
            },
            CronField::Unspecified => 59,
            CronField::Last(_) | CronField::NearestWeekday(_) | CronField::NthWeekday(_, _) => 31,
        }
    }

    /// Maximum of the `max_value` of the first `n` items of a list.
    pub open spec fn list_max(fields: Vec<CronField>, n: nat) -> Option<int>
        decreases fields, n,
    {
        if n == 0 || n > fields.len() {
            None
        } else {
            Some(option_max(CronField::list_max(fields, (n - 1) as nat), fields[n - 1].max_value()))
        }
    }

    /// Whether the field accepts `value` on its own (day-dependent operators such as `L`,
    /// `W` and `#` accept nothing here; they are decided against a calendar date).
    pub open spec fn matches_value(self, value: int) -> bool
        decreases self, 0nat,
    {
        match self {
            CronField::Wildcard => true,
            CronField::Exact(v) => v == value,
            CronField::Range(start, end) => start <= value <= end,
            CronField::Step(base, step) => {
                let start = base.min_value();
                &&& value >= start
                &&& (step_end(*base) matches Some(end) ==> value <= end)
                &&& if step == 0 {
                    value == start
                } else {
                    (value - start) % (step as int) == 0
                }
            },
            CronField::List(fields) => CronField::list_matches(fields, fields.len() as nat, value),
            _ => false,
        }
    }

    /// Whether one of the first `n` items of a list accepts `value`.
    pub open spec fn list_matches(fields: Vec<CronField>, n: nat, value: int) -> bool
        decreases fields, n,
    {
        if n == 0 || n > fields.len() {
            false
        } else {
            fields[n - 1].matches_value(value) || CronField::list_matches(
                fields,
                (n - 1) as nat,
                value,
            )
        }
    }

    /// `max_value` can be computed without an arithmetic fault: every step is non-zero and
    /// every stepped base has `min_value <= max_value`.
    pub open spec fn max_defined(self) -> bool
        decreases self, 0nat,
    {
        match self {
            CronField::Step(base, step) => step != 0 && base.max_defined() && base.min_value()
                <= base.max_value(),
            CronField::List(fields) => CronField::list_max_defined(fields, fields.len() as nat),
            _ => true,
        }
    }

    pub open spec fn list_max_defined(fields: Vec<CronField>, n: nat) -> bool
        decreases fields, n,
    {
        if n == 0 || n > fields.len() {
            true
        } else {
            fields[n - 1].max_defined() && CronField::list_max_defined(fields, (n - 1) as nat)
        }
    }
}

/// The last value that a stepped field over `base` may reach on its own: the end of a range.
pub open spec fn step_end(base: CronField) -> Option<int> {
    match base {
        CronField::Range(_, end) => Some(end as int),
        _ => None,
    }
}

/// `v` is one of the values that the list search of `next_valid` considers for the item `f`:
/// from the item's `min_value` up to `field_max`, and accepted by the item.
pub open spec fn item_candidate(f: CronField, v: int, field_max: int) -> bool {
    f.min_value() <= v <= field_max && f.matches_value(v)
}

pub open spec fn list_candidate(fields: Vec<CronField>, v: int, field_max: int) -> bool {
    exists|i: int| 0 <= i < fields.len() && item_candidate(#[trigger] fields[i], v, field_max)
}

pub open spec fn least_at_least(fields: Vec<CronField>, v: int, current: int, field_max: int) -> bool {
    &&& v >= current
    &&& list_candidate(fields, v, field_max)
    &&& forall|w: int| w >= current && list_candidate(fields, w, field_max) ==> v <= w
}

/// The smallest list candidate that is at least `current`, if there is one.
pub open spec fn least_list_candidate(fields: Vec<CronField>, current: int, field_max: int) -> Option<int> {
    if exists|v: int| least_at_least(fields, v, current, field_max) {
        Some(choose|v: int| least_at_least(fields, v, current, field_max))
    } else {
        None
    }
}

pub open spec fn ceil_div(a: int, b: int) -> int {
    if a % b == 0 { a / b } else { a / b + 1 }
}

/// The last value that the search of a stepped field over `base` may yield: `field_max`, or the
/// end of a range base when that comes first.
pub open spec fn step_upper(base: CronField, field_max: int) -> int {
    match step_end(base) {
        Some(end) => if end < field_max { end } else { field_max },
        None => field_max,
    }
}

impl CronField {
    /// The value that `next_valid` yields for `current` within a field whose last value is
    /// `field_max`.
    pub open spec fn next_valid_value(self, current: int, field_max: int) -> Option<int> {
        if self.matches_value(current) {
            Some(current)
        } else {
            match self {
                CronField::Wildcard => Some(current),
                CronField::Exact(v) => if v > current { Some(v as int) } else { None },
                CronField::Range(start, end) => if current < start && start <= end {
                    Some(start as int)
                } else {
                    None
                },
                CronField::Step(base, step) => {
                    let start = base.min_value();
                    let upper = step_upper(*base, field_max);
                    if current < start {
                        if start <= upper { Some(start) } else { None }
                    } else if step == 0 {
                        None
                    } else {
                        let next = start + ceil_div(current - start, step as int) * (step as int);
                        if next <= upper { Some(next) } else { None }
                    }
                },
                CronField::List(fields) => least_list_candidate(fields, current, field_max),
                _ => None,
            }
        }
    }

    /// Smallest value the field stands for; an empty list counts as `0`.
    pub fn min(&self) -> (r: u32)
        ensures
            r as int == self.min_value(),
        decreases self,
    {
        match self {
            CronField::Wildcard => 0,
            CronField::Exact(v) => *v,
            CronField::Range(start, _) => *start,
            CronField::Step(base, _) => base.min(),
            CronField::List(fields) => {
                let mut best: Option<u32> = None;
                let mut i: usize = 0;
                while i < fields.len()
                    invariant
                        i <= fields.len(),
                        *self == CronField::List(*fields),
                        match best {
                            Some(x) => CronField::list_min(*fields, i as nat) == Some(x as int),
                            None => CronField::list_min(*fields, i as nat) == None::<int>,
                        },
                    decreases fields.len() - i,
                {
                    proof {
                        lemma_item_smaller(*self, i as int);
                    }
                    let m = fields[i].min();
                    best = match best {
                        Some(x) => Some(if x <= m { x } else { m }),
                        None => Some(m),
                    };
                    i += 1;
                }
                match best {
                    Some(x) => x,
                    None => 0,
                }
            },
            CronField::Unspecified => 0,
            CronField::Last(_) | CronField::NearestWeekday(_) | CronField::NthWeekday(_, _) => 1,
        }
    }
}

/// An item of a list field is structurally smaller than the list.
pub proof fn lemma_item_smaller(f: CronField, i: int)
    requires
        f is List,
        0 <= i < f->List_0.len(),
    ensures
        decreases_to!(f => f->List_0[i]),
{
    assert(decreases_to!(f => f->List_0));
    assert(decreases_to!(f->List_0 => f->List_0[i])) by {
        broadcast use vstd::std_specs::vec::axiom_vec_index_decreases;
    }
}

pub open spec fn list_candidate_upto(fields: Vec<CronField>, n: int, v: int, field_max: int) -> bool {
    exists|j: int| 0 <= j < n && item_candidate(#[trigger] fields[j], v, field_max)
}

impl CronField {
    /// Largest value the field stands for; an empty list counts as `59`.
    pub fn max(&self) -> (r: u32)
        requires
            self.max_defined(),
        ensures
            r as int == self.max_value(),
        decreases self,
    {
        match self {
            CronField::Wildcard => 59,
            CronField::Exact(v) => *v,
            CronField::Range(_, end) => *end,
            CronField::Step(base, step) => {
                let base_max = base.max();
                let base_min = base.min();
                let d = base_max - base_min;
                proof {
                    assert(d % *step <= d) by (nonlinear_arith)
                        requires *step > 0;
                }
                base_max - (d % *step)
            },
            CronField::List(fields) => {
                let mut best: Option<u32> = None;
                let mut i: usize = 0;
                while i < fields.len()
                    invariant
                        i <= fields.len(),
                        *self == CronField::List(*fields),
                        CronField::list_max_defined(*fields, fields.len() as nat),
                        match best {
                            Some(x) => CronField::list_max(*fields, i as nat) == Some(x as int),
                            None => CronField::list_max(*fields, i as nat) == None::<int>,
                        },
                    decreases fields.len() - i,
                {
                    proof {
                        lemma_item_smaller(*self, i as int);
                        lemma_list_max_defined(*fields, fields.len() as nat, i as int);
                    }
                    let m = fields[i].max();
                    best = match best {
                        Some(x) => Some(if x >= m { x } else { m }),
                        None => Some(m),
                    };
                    i += 1;
                }
                match best {
                    Some(x) => x,
                    None => 59,
                }
            },
            CronField::Unspecified => 59,
            CronField::Last(_) | CronField::NearestWeekday(_) | CronField::NthWeekday(_, _) => 31,
        }
    }

    /// Whether the field accepts `value` on its own.
    pub fn matches(&self, value: u32) -> (r: bool)
        ensures
            r == self.matches_value(value as int),
        decreases self,
    {
        match self {
            CronField::Wildcard => true,
            CronField::Exact(v) => *v == value,
            CronField::Range(start, end) => *start <= value && value <= *end,
            CronField::Step(base, step) => {
                let start_value = match **base {
                    CronField::Exact(v) => v,
                    CronField::Wildcard => 0,
                    _ => base.min(),
                };
                let within_end = match **base {
                    CronField::Range(_, end) => value <= end,
                    _ => true,
                };
                value >= start_value && within_end && (if *step == 0 {
                    value - start_value == 0
                } else {
                    (value - start_value) % *step == 0
                })
            },
            CronField::List(fields) => {
                let mut i: usize = 0;
                while i < fields.len()
                    invariant
                        i <= fields.len(),
                        *self == CronField::List(*fields),
                        !CronField::list_matches(*fields, i as nat, value as int),
                    decreases fields.len() - i,
                {
                    proof {
                        lemma_item_smaller(*self, i as int);
                    }
                    if fields[i].matches(value) {
                        proof {
                            lemma_list_matches_item(*fields, fields.len() as nat, i as int, value as int);
                        }
                        return true;
                    }
                    i += 1;
                }
                false
            },
            CronField::Unspecified => false,
            _ => false,
        }
    }
}

pub proof fn lemma_list_max_defined(fields: Vec<CronField>, n: nat, i: int)
    requires
        CronField::list_max_defined(fields, n),
        n <= fields.len(),
        0 <= i < n,
    ensures
        fields[i].max_defined(),
    decreases n,
{
    if i < n - 1 {
        lemma_list_max_defined(fields, (n - 1) as nat, i);
    }
}

/// `list_matches` over the first `n` items is "some item among them matches".
pub proof fn lemma_list_matches_item(fields: Vec<CronField>, n: nat, i: int, v: int)
    requires
        n <= fields.len(),
        0 <= i < n,
        fields[i].matches_value(v),
    ensures
        CronField::list_matches(fields, n, v),
    decreases n,
{
    if i < n - 1 {
        lemma_list_matches_item(fields, (n - 1) as nat, i, v);
    }
}

pub proof fn lemma_list_matches_exists(fields: Vec<CronField>, n: nat, v: int)
    requires
        n <= fields.len(),
        CronField::list_matches(fields, n, v),
    ensures
        exists|i: int| 0 <= i < n && (#[trigger] fields[i]).matches_value(v),
    decreases n,
{
    if !fields[n - 1].matches_value(v) {
        lemma_list_matches_exists(fields, (n - 1) as nat, v);
    }
}

impl CronField {
    /// The first value, starting at `current`, that the field stands for within a field whose
    /// last value is `field_max` (see `next_valid_value` for each kind of field).
    pub fn next_valid(&self, current: u32, field_max: u32) -> (r: Option<u32>)
        ensures
            r == (match self.next_valid_value(current as int, field_max as int) {
                Some(x) => Some(x as u32),
                None => None::<u32>,
            }),
            r matches Some(x) ==> self.next_valid_value(current as int, field_max as int) == Some(
                x as int,
            ),
            r is None ==> self.next_valid_value(current as int, field_max as int) is None,
    {
        if self.matches(current) {
            return Some(current);
        }
        match self {
            CronField::Wildcard => Some(current),
            CronField::Exact(v) => {
                if *v > current {
                    Some(*v)
                } else {
                    None
                }
            },
            CronField::Range(start, end) => {
                if current < *start && *start <= *end {
                    Some(*start)
                } else {
                    None
                }
            },
            CronField::Step(base, step) => {
                let start_value = base.min();
                let upper = match **base {
                    CronField::Range(_, end) => if end < field_max {
                        end
                    } else {
                        field_max
                    },
                    _ => field_max,
                };
                if current < start_value {
                    if start_value <= upper {
                        Some(start_value)
                    } else {
                        None
                    }
                } else if *step == 0 {
                    None
                } else {
                    let d = (current - start_value) as u64;
                    let st = *step as u64;
                    proof {
                        assert(d / st <= d) by (nonlinear_arith)
                            requires st > 0;
                    }
                    let q = if d % st == 0 {
                        d / st
                    } else {
                        d / st + 1
                    };
                    proof {
                        let s = *step as int;
                        let di = d as int;
                        let qi = q as int;
                        assert(qi * s <= di + s - 1) by (nonlinear_arith)
                            requires
                                s > 0,
                                di >= 0,
                                qi == (if di % s == 0 { di / s } else { di / s + 1 }),
                        ;
                        assert(qi * s >= 0) by (nonlinear_arith)
                            requires s > 0, qi >= 0;
                        assert(qi == ceil_div(di, s));
                    }
                    let steps_ahead = q * st;
                    let next_value = start_value as u64 + steps_ahead;
                    if next_value <= upper as u64 {
                        Some(next_value as u32)
                    } else {
                        None
                    }
                }
            },
            CronField::List(fields) => {
                let r = Self::next_in_list(fields, current, field_max);
                proof {
                    lemma_least_list_candidate(*fields, current as int, field_max as int, r);
                }
                r
            },
            _ => None,
        }
    }

    /// The smallest list candidate that is at least `current`.
    fn next_in_list(fields: &Vec<CronField>, current: u32, field_max: u32) -> (r: Option<u32>)
        ensures
            match r {
                Some(b) => b >= current && list_candidate(*fields, b as int, field_max as int)
                    && forall|w: int|
                    w >= current && list_candidate(*fields, w, field_max as int) ==> b <= w,
                None => forall|w: int|
                    w >= current ==> !list_candidate(*fields, w, field_max as int),
            },
    {
        let mut best: Option<u32> = None;
        let mut i: usize = 0;
        while i < fields.len()
            invariant
                i <= fields.len(),
                match best {
                    Some(b) => b >= current && list_candidate_upto(
                        *fields,
                        i as int,
                        b as int,
                        field_max as int,
                    ) && forall|w: int|
                        w >= current && list_candidate_upto(*fields, i as int, w, field_max as int)
                            ==> b <= w,
                    None => forall|w: int|
                        w >= current ==> !list_candidate_upto(
                            *fields,
                            i as int,
                            w,
                            field_max as int,
                        ),
                },
            decreases fields.len() - i,
        {
            let f = &fields[i];
            let lo = f.min();
            let top = field_max as u64;
            let mut v: u64 = if lo > current {
                lo as u64
            } else {
                current as u64
            };
            let ghost v0 = v;
            let mut found: Option<u32> = None;
            while v <= top
                invariant_except_break
                    found is None,
                invariant
                    top == field_max,
                    v0 <= v,
                    v > top + 1 ==> v == v0,
                    v0 == (if lo > current { lo } else { current }),
                    lo as int == f.min_value(),
                    forall|w: int| v0 <= w < v ==> !f.matches_value(w),
                ensures
                    found matches Some(x) ==> v0 <= x <= top && f.matches_value(x as int) && forall|
                        w: int,
                    | v0 <= w < x ==> !f.matches_value(w),
                    found is None ==> v > top,
                decreases top + 1 - v,
            {
                if f.matches(v as u32) {
                    found = Some(v as u32);
                    break;
                }
                v += 1;
            }
            proof {
                match found {
                    Some(x) => {
                        assert(item_candidate(fields[i as int], x as int, field_max as int));
                        assert forall|w: int|
                            w >= current && item_candidate(
                                #[trigger] fields[i as int],
                                w,
                                field_max as int,
                            ) implies x <= w by {}
                    },
                    None => {
                        assert forall|w: int| w >= current implies !item_candidate(
                            #[trigger] fields[i as int],
                            w,
                            field_max as int,
                        ) by {}
                    },
                }
            }
            best = match (best, found) {
                (Some(b), Some(x)) => Some(if b <= x { b } else { x }),
                (Some(b), None) => Some(b),
                (None, Some(x)) => Some(x),
                (None, None) => None,
            };
            proof {
                let n = (i + 1) as int;
                assert forall|w: int|
                    list_candidate_upto(*fields, n, w, field_max as int) <==> (list_candidate_upto(
                        *fields,
                        i as int,
                        w,
                        field_max as int,
                    ) || item_candidate(fields[i as int], w, field_max as int)) by {
                    if list_candidate_upto(*fields, n, w, field_max as int) {
                        let j = choose|j: int|
                            0 <= j < n && item_candidate(
                                #[trigger] fields[j],
                                w,
                                field_max as int,
                            );
                        if j < i {
                            assert(list_candidate_upto(*fields, i as int, w, field_max as int));
                        }
                    }
                    if item_candidate(fields[i as int], w, field_max as int) {
                        assert(list_candidate_upto(*fields, n, w, field_max as int));
                    }
                }
            }
            i += 1;
        }
        proof {
            assert forall|w: int|
                list_candidate(*fields, w, field_max as int) <==> list_candidate_upto(
                    *fields,
                    fields.len() as int,
                    w,
                    field_max as int,
                ) by {}
        }
        best
    }
}

/// The result of the list search is the value that `least_list_candidate` picks.
proof fn lemma_least_list_candidate(
    fields: Vec<CronField>,
    current: int,
    field_max: int,
    r: Option<u32>,
)
    requires
        match r {
            Some(b) => b >= current && list_candidate(fields, b as int, field_max)
                && forall|w: int| w >= current && list_candidate(fields, w, field_max) ==> b <= w,
            None => forall|w: int| w >= current ==> !list_candidate(fields, w, field_max),
        },
    ensures
        least_list_candidate(fields, current, field_max) == (match r {
            Some(b) => Some(b as int),
            None => None::<int>,
        }),
{
    match r {
        Some(b) => {
            assert(least_at_least(fields, b as int, current, field_max));
            let c = choose|v: int| least_at_least(fields, v, current, field_max);
            assert(c <= b && b <= c);
        },
        None => {},
    }
}

pub proof fn lemma_ceil_div(d: int, s: int)
    requires
        d >= 0,
        s > 0,
    ensures
        ceil_div(d, s) >= 0,
        ceil_div(d, s) * s >= d,
        ceil_div(d, s) * s <= d + s - 1,
        (ceil_div(d, s) * s) % s == 0,
        forall|k: int| #![trigger k * s] k * s >= d ==> k >= ceil_div(d, s),
{
    let c = ceil_div(d, s);
    assert(c * s >= d && c * s <= d + s - 1 && c >= 0) by (nonlinear_arith)
        requires
            d >= 0,
            s > 0,
            c == (if d % s == 0 { d / s } else { d / s + 1 }),
    ;
    assert((c * s) % s == 0) by (nonlinear_arith)
        requires s > 0, c >= 0;
    assert forall|k: int| #![trigger k * s] k * s >= d implies k >= c by {
        assert(k >= c) by (nonlinear_arith)
            requires
                d >= 0,
                s > 0,
                k * s >= d,
                c == (if d % s == 0 { d / s } else { d / s + 1 }),
        ;
    }
}

/// A value of a list item is a value of the list.
pub proof fn lemma_list_candidate_matches(fields: Vec<CronField>, v: int, field_max: int)
    requires
        list_candidate(fields, v, field_max),
    ensures
        CronField::List(fields).matches_value(v),
{
    let i = choose|i: int| 0 <= i < fields.len() && item_candidate(#[trigger] fields[i], v, field_max);
    lemma_list_matches_item(fields, fields.len() as nat, i, v);
}

/// What `next_valid` yields is a value of the field, at least `current`; when `current` is
/// not a value of the field, it is past `current`.
pub proof fn lemma_next_valid_sound(f: CronField, current: int, field_max: int)
    ensures
        f.next_valid_value(current, field_max) matches Some(x) ==> x >= current
            && f.matches_value(x),
        f.next_valid_value(current, field_max) matches Some(x) ==> !f.matches_value(current)
            ==> x > current,
{
    if !f.matches_value(current) {
        match f {
            CronField::Step(base, step) => {
                let start = base.min_value();
                if current >= start {
                    if step != 0 {
                        let s = step as int;
                        let c = ceil_div(current - start, s);
                        lemma_ceil_div(current - start, s);
                        let x = start + c * s;
                        assert(x - start == c * s);
                    }
                } else if step != 0 {
                    assert((start - start) % (step as int) == 0) by (nonlinear_arith)
                        requires step != 0;
                }
            },
            CronField::List(fields) => {
                if exists|v: int| least_at_least(fields, v, current, field_max) {
                    let x = choose|v: int| least_at_least(fields, v, current, field_max);
                    lemma_list_candidate_matches(fields, x, field_max);
                }
            },
            _ => {},
        }
    }
}

/// `list_min` over the first `n` items is at most the `min_value` of each of them.
pub proof fn lemma_list_min_le(fields: Vec<CronField>, n: nat, i: int)
    requires
        n <= fields.len(),
        0 <= i < n,
    ensures
        CronField::list_min(fields, n) matches Some(m) && m <= fields[i].min_value(),
    decreases n,
{
    if i < n - 1 {
        lemma_list_min_le(fields, (n - 1) as nat, i);
    }
}

/// `min_value` is a lower bound of the (non-negative) values of the field.
pub proof fn lemma_min_value_lower_bound(f: CronField, y: int)
    requires
        y >= 0,
        f.matches_value(y),
    ensures
        f.min_value() <= y,
    decreases f,
{
    match f {
        CronField::List(fields) => {
            lemma_list_matches_exists(fields, fields.len() as nat, y);
            let i = choose|i: int| 0 <= i < fields.len() && (#[trigger] fields[i]).matches_value(y);
            assert(decreases_to!(f => fields[i])) by {
                lemma_item_smaller(f, i);
            }
            lemma_min_value_lower_bound(fields[i], y);
            lemma_list_min_le(fields, fields.len() as nat, i);
        },
        _ => {},
    }
}

/// A stepped value at least `start + ceil_div(current - start, step) * step`.
proof fn lemma_step_value_past(start: int, step: int, current: int, y: int)
    requires
        step > 0,
        start <= current,
        y >= current,
        (y - start) % step == 0,
    ensures
        y >= start + ceil_div(current - start, step) * step,
{
    let d = current - start;
    let k = (y - start) / step;
    assert(k * step == y - start) by (nonlinear_arith)
        requires (y - start) % step == 0, step > 0, k == (y - start) / step;
    lemma_ceil_div(d, step);
    let c = ceil_div(d, step);
    assert(k * step >= d);
    assert(k >= c);
    assert(k * step >= c * step) by (nonlinear_arith)
        requires k >= c, step > 0;
}

/// `next_valid` yields the least value of the field from `current` on, and when it yields
/// nothing, no value of the field lies in `[current, field_max]`.
pub proof fn lemma_next_valid_least(f: CronField, current: int, field_max: int)
    requires
        current >= 0,
    ensures
        f.next_valid_value(current, field_max) matches Some(x) ==> forall|y: int|
            current <= y < x ==> !f.matches_value(y),
        f.next_valid_value(current, field_max) is None ==> forall|y: int|
            current <= y <= field_max ==> !f.matches_value(y),
{
    if !f.matches_value(current) {
        match f {
            CronField::Step(base, step) => {
                let start = base.min_value();
                if current >= start && step != 0 {
                    assert forall|y: int| current <= y && f.matches_value(y) implies y >= start
                        + ceil_div(current - start, step as int) * (step as int) by {
                        lemma_step_value_past(start, step as int, current, y);
                    }
                }
            },
            CronField::List(fields) => {
                assert forall|y: int|
                    current <= y <= field_max && f.matches_value(y) implies list_candidate(
                    fields,
                    y,
                    field_max,
                ) by {
                    lemma_list_matches_exists(fields, fields.len() as nat, y);
                    let i = choose|i: int|
                        0 <= i < fields.len() && (#[trigger] fields[i]).matches_value(y);
                    lemma_min_value_lower_bound(fields[i], y);
                    assert(item_candidate(fields[i], y, field_max));
                }
                if exists|v: int| least_at_least(fields, v, current, field_max) {
                    let x = choose|v: int| least_at_least(fields, v, current, field_max);
                    assert forall|y: int| current <= y < x implies !f.matches_value(y) by {
                        if f.matches_value(y) {
                            assert(list_candidate(fields, y, field_max));
                        }
                    }
                } else {
                    assert forall|y: int| current <= y <= field_max implies !f.matches_value(
                        y,
                    ) by {
                        if f.matches_value(y) {
                            assert(list_candidate(fields, y, field_max));
                            lemma_least_exists(fields, current, field_max, y);
                        }
                    }
                }
            },
            _ => {},
        }
    }
}

/// Among list candidates from `current` on, there is a least one.
proof fn lemma_least_exists(fields: Vec<CronField>, current: int, field_max: int, y: int)
    requires
        y >= current,
        list_candidate(fields, y, field_max),
    ensures
        exists|v: int| least_at_least(fields, v, current, field_max),
    decreases y - current,
{
    if exists|w: int| current <= w < y && list_candidate(fields, w, field_max) {
        let w = choose|w: int| current <= w < y && list_candidate(fields, w, field_max);
        lemma_least_exists(fields, current, field_max, w);
    } else {
        assert(least_at_least(fields, y, current, field_max));
    }
}

/// When `current` is not a value of the field and the search yields a value past
/// `field_max`, the field has no value up to `field_max` at all.
pub proof fn lemma_next_valid_beyond(f: CronField, current: int, field_max: int)
    requires
        !f.matches_value(current),
        f.next_valid_value(current, field_max) matches Some(x) && x > field_max,
    ensures
        forall|y: int| y <= field_max ==> !f.matches_value(y),
{
    match f {
        CronField::List(fields) => {
            let x = choose|v: int| least_at_least(fields, v, current, field_max);
            assert(list_candidate(fields, x, field_max));
        },
        _ => {},
    }
}

/// `min_value` is never negative.
pub proof fn lemma_min_value_nonneg(f: CronField)
    ensures
        f.min_value() >= 0,
    decreases f, 0nat,
{
    match f {
        CronField::Step(base, _) => lemma_min_value_nonneg(*base),
        CronField::List(fields) => lemma_list_min_nonneg(fields, fields.len() as nat),
        _ => {},
    }
}

proof fn lemma_list_min_nonneg(fields: Vec<CronField>, n: nat)
    ensures
        CronField::list_min(fields, n) matches Some(m) ==> m >= 0,
    decreases fields, n,
{
    if n > 0 && n <= fields.len() {
        lemma_list_min_nonneg(fields, (n - 1) as nat);
        assert(decreases_to!(fields => fields[n - 1])) by {
            broadcast use vstd::std_specs::vec::axiom_vec_index_decreases;
        }
        lemma_min_value_nonneg(fields[n - 1]);
    }
}

/// A field that accepts a negative number accepts every number (it holds a `*`); a field that
/// accepts `-1` accepts every number and one that does not accepts no negative number.
pub proof fn lemma_negative_values(f: CronField)
    ensures
        f.matches_value(-1) ==> forall|z: int| #[trigger] f.matches_value(z),
        !f.matches_value(-1) ==> forall|y: int| y < 0 ==> !#[trigger] f.matches_value(y),
    decreases f,
{
    match f {
        CronField::Step(base, _) => {
            lemma_min_value_nonneg(*base);
        },
        CronField::List(fields) => {
            if f.matches_value(-1) {
                lemma_list_matches_exists(fields, fields.len() as nat, -1);
                let i = choose|i: int|
                    0 <= i < fields.len() && (#[trigger] fields[i]).matches_value(-1);
                assert(decreases_to!(f => fields[i])) by {
                    lemma_item_smaller(f, i);
                }
                lemma_negative_values(fields[i]);
                assert forall|z: int| #[trigger] f.matches_value(z) by {
                    lemma_list_matches_item(fields, fields.len() as nat, i, z);
                }
            } else {
                assert forall|y: int| y < 0 implies !#[trigger] f.matches_value(y) by {
                    if f.matches_value(y) {
                        lemma_list_matches_exists(fields, fields.len() as nat, y);
                        let i = choose|i: int|
                            0 <= i < fields.len() && (#[trigger] fields[i]).matches_value(y);
                        assert(decreases_to!(f => fields[i])) by {
                            lemma_item_smaller(f, i);
                        }
                        lemma_negative_values(fields[i]);
                        lemma_list_matches_item(fields, fields.len() as nat, i, -1);
                    }
                }
            }
        },
        _ => {},
    }
}

impl CronField {
    /// Whether the field accepts negative numbers (see `lemma_negative_values`).
    pub fn accepts_negative(&self) -> (r: bool)
        ensures
            r == self.matches_value(-1),
        decreases self,
    {
        match self {
            CronField::Wildcard => true,
            CronField::Step(base, _) => {
                proof {
                    lemma_min_value_nonneg(**base);
                }
                false
            },
            CronField::List(fields) => {
                let mut i: usize = 0;
                while i < fields.len()
                    invariant
                        i <= fields.len(),
                        *self == CronField::List(*fields),
                        !CronField::list_matches(*fields, i as nat, -1),
                    decreases fields.len() - i,
                {
                    proof {
                        lemma_item_smaller(*self, i as int);
                    }
                    if fields[i].accepts_negative() {
                        proof {
                            lemma_list_matches_item(*fields, fields.len() as nat, i as int, -1);
                        }
                        return true;
                    }
                    i += 1;
                }
                false
            },
            _ => false,
        }
    }
}

/// `a` and `b` behave alike: the same smallest value, the same accepted values, the same kind,
/// and equal outright unless they are steps or lists.
pub open spec fn same_behaviour(a: CronField, b: CronField) -> bool {
    &&& a.min_value() == b.min_value()
    &&& forall|x: int| #[trigger] a.matches_value(x) == b.matches_value(x)
    &&& (a is List) == (b is List)
    &&& (a is Step) == (b is Step)
    &&& (!(a is List) && !(a is Step)) ==> a == b
}

/// Lists whose items behave alike, item by item, have the same smallest value and accept the
/// same values.
proof fn lemma_lists_alike(x: Vec<CronField>, y: Vec<CronField>, n: nat)
    requires
        x.len() == y.len(),
        n <= x.len(),
        forall|j: int| 0 <= j < x.len() ==> same_behaviour(#[trigger] x[j], y[j]),
    ensures
        CronField::list_min(x, n) == CronField::list_min(y, n),
        forall|v: int|
            #[trigger] CronField::list_matches(x, n, v) == CronField::list_matches(y, n, v),
    decreases n,
{
    if n > 0 {
        lemma_lists_alike(x, y, (n - 1) as nat);
        assert(same_behaviour(x[n - 1], y[n - 1]));
        assert forall|v: int|
            #[trigger] CronField::list_matches(x, n, v) == CronField::list_matches(y, n, v) by {
            assert(x[n - 1].matches_value(v) == y[n - 1].matches_value(v));
            assert(CronField::list_matches(x, (n - 1) as nat, v) == CronField::list_matches(
                y,
                (n - 1) as nat,
                v,
            ));
        }
    }
}

/// A copy of `f` that behaves alike.
fn copy_field(f: &CronField) -> (r: CronField)
    ensures
        same_behaviour(r, *f),
    decreases f,
{
    match f {
        CronField::Wildcard => CronField::Wildcard,
        CronField::Exact(v) => CronField::Exact(*v),
        CronField::Range(a, b) => CronField::Range(*a, *b),
        CronField::Step(base, step) => {
            let b = copy_field(base);
            let r = CronField::Step(Box::new(b), *step);
            proof {
                assert(step_end(b) == step_end(**base));
                assert forall|x: int| #[trigger] r.matches_value(x) == f.matches_value(x) by {
                    assert(b.matches_value(x) == base.matches_value(x));
                }
            }
            r
        },
        CronField::List(fields) => {
            let mut v: Vec<CronField> = Vec::new();
            let mut i: usize = 0;
            while i < fields.len()
                invariant
                    i <= fields.len(),
                    v.len() == i,
                    *f == CronField::List(*fields),
                    forall|j: int| 0 <= j < i ==> same_behaviour(#[trigger] v[j], fields[j]),
                decreases fields.len() - i,
            {
                proof {
                    lemma_item_smaller(*f, i as int);
                }
                let c = copy_field(&fields[i]);
                v.push(c);
                i += 1;
            }
            let r = CronField::List(v);
            proof {
                lemma_lists_alike(v, *fields, v.len() as nat);
                assert forall|x: int| #[trigger] r.matches_value(x) == f.matches_value(x) by {
                    assert(CronField::list_matches(v, v.len() as nat, x) == CronField::list_matches(
                        *fields,
                        fields.len() as nat,
                        x,
                    ));
                }
            }
            r
        },
        CronField::Unspecified => CronField::Unspecified,
        CronField::Last(k) => CronField::Last(*k),
        CronField::NearestWeekday(d) => CronField::NearestWeekday(*d),
        CronField::NthWeekday(d, n) => CronField::NthWeekday(*d, *n),
    }
}

impl Clone for CronField {
    /// A copy that behaves alike.
    fn clone(&self) -> (r: Self)
        ensures
            same_behaviour(r, *self),
    {
        copy_field(self)
    }
}

/// The values each kind of field accepts, stated on the values themselves: `*` every value, a
/// value itself, a range `a-b` the values from `a` to `b` with both ends included, a step of
/// `s > 0` from `*`, from `a` or over `a-b` the values `s` apart from its start (and no further
/// than `b`), and a list the values that one of its items accepts.
pub proof fn law_field_values(a: u32, b: u32, s: u32, items: Vec<CronField>, v: int)
    requires
        s > 0,
    ensures
        CronField::Wildcard.matches_value(v),
        CronField::Exact(a).matches_value(v) <==> v == a,
        CronField::Range(a, b).matches_value(v) <==> a <= v <= b,
        CronField::Step(Box::new(CronField::Wildcard), s).matches_value(v) <==> v >= 0 && v % (
        s as int) == 0,
        CronField::Step(Box::new(CronField::Exact(a)), s).matches_value(v) <==> v >= a && (v
            - a) % (s as int) == 0,
        CronField::Step(Box::new(CronField::Range(a, b)), s).matches_value(v) <==> a <= v <= b
            && (v - a) % (s as int) == 0,
        CronField::List(items).matches_value(v) <==> exists|i: int|
            0 <= i < items.len() && (#[trigger] items[i]).matches_value(v),
{
    if CronField::List(items).matches_value(v) {
        lemma_list_matches_exists(items, items.len() as nat, v);
    }
    if exists|i: int| 0 <= i < items.len() && (#[trigger] items[i]).matches_value(v) {
        let i = choose|i: int| 0 <= i < items.len() && (#[trigger] items[i]).matches_value(v);
        lemma_list_matches_item(items, items.len() as nat, i, v);
    }
}

/// The search of a range `a-b` from `current` gives `current` when it lies in the range, the
/// start `a` when `current` lies before a range that is not empty, and nothing otherwise.
pub proof fn law_range_search(a: u32, b: u32, current: int, field_max: int)
    ensures
        CronField::Range(a, b).next_valid_value(current, field_max) == (if a <= current <= b {
            Some(current)
        } else if current < a && a <= b {
            Some(a as int)
        } else {
            None
        }),
{
}

} // verus!

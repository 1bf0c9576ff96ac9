//! The cron field parser.
//!
//! A field is a comma-separated list of items. An item is a wildcard (`*` or
//! `?`), a bare integer, or a range `a-b` (with `a <= b`), optionally suffixed
//! with `/step` for a positive step. A wildcard stands for the field's whole
//! `[min, max]` range; the step walks the base range from its lower bound.
//! The field's final value set is the union of all items, sorted ascending and
//! deduplicated, and every member must lie within `[min, max]`.

use vstd::prelude::*;

use crate::chars::{
    chars_of, digits_val, find_char, first_index, parse_u32, valid_number,
};
use crate::errors::CronError;

verus! {

/// Meaning of an item's base part: the inclusive bounds `(lo, hi)` it spans.
///
/// `wc` gives the bounds a wildcard stands for; `None` means a wildcard is not
/// allowed in this context. A malformed base means `None`.
pub open spec fn base_sem(s: Seq<char>, wc: Option<(u32, u32)>) -> Option<(u32, u32)> {
    if s.len() == 1 && (s[0] == '*' || s[0] == '?') {
        wc
    } else {
        let d = first_index(s, '-');
        if d < 0 {
            if valid_number(s) {
                Some(((digits_val(s) as u32), (digits_val(s) as u32)))
            } else {
                None
            }
        } else {
            let a = s.take(d);
            let b = s.skip(d + 1);
            if valid_number(a) && valid_number(b) && digits_val(a) <= digits_val(b) {
                Some(((digits_val(a) as u32), (digits_val(b) as u32)))
            } else {
                None
            }
        }
    }
}

/// Meaning of one item: base bounds plus the step, `(lo, hi, step)`.
pub open spec fn item_sem(s: Seq<char>, wc: Option<(u32, u32)>) -> Option<(u32, u32, u32)> {
    let sl = first_index(s, '/');
    if sl < 0 {
        match base_sem(s, wc) {
            Some((lo, hi)) => Some((lo, hi, 1u32)),
            None => None,
        }
    } else {
        let st = s.skip(sl + 1);
        if valid_number(st) && digits_val(st) >= 1 {
            match base_sem(s.take(sl), wc) {
                Some((lo, hi)) => Some((lo, hi, (digits_val(st) as u32))),
                None => None,
            }
        } else {
            None
        }
    }
}

/// The values an item denotes: every `step`-th value of `[lo, hi]`, starting
/// at `lo`.
pub open spec fn range_values(lo: u32, hi: u32, step: u32) -> Seq<u32>
    recommends
        lo <= hi,
        step >= 1,
{
    Seq::new((((hi - lo) / (step as int)) + 1) as nat, |i: int| (lo + i * step) as u32)
}

/// Meaning of a comma-separated item list: the concatenation of the items'
/// values, in order. `None` if any item is malformed.
pub open spec fn items_sem(s: Seq<char>, wc: Option<(u32, u32)>) -> Option<Seq<u32>>
    decreases s.len(),
{
    let c = first_index(s, ',');
    if 0 <= c < s.len() {
        match item_sem(s.take(c), wc) {
            Some((lo, hi, step)) => match items_sem(s.skip(c + 1), wc) {
                Some(rest) => Some(range_values(lo, hi, step) + rest),
                None => None,
            },
            None => None,
        }
    } else {
        match item_sem(s, wc) {
            Some((lo, hi, step)) => Some(range_values(lo, hi, step)),
            None => None,
        }
    }
}

/// The values of an item all lie between its bounds, are strictly ascending,
/// start at `lo`, and are exactly the values of `[lo, hi]` that `lo` reaches
/// in strides of `step`.
pub proof fn lemma_range_values_props(lo: u32, hi: u32, step: u32)
    requires
        lo <= hi,
        step >= 1,
    ensures
        range_values(lo, hi, step).len() >= 1,
        range_values(lo, hi, step)[0] == lo,
        forall|i: int|
            0 <= i < range_values(lo, hi, step).len() ==> lo <= #[trigger] range_values(
                lo,
                hi,
                step,
            )[i] <= hi,
        forall|i: int, j: int|
            0 <= i < j < range_values(lo, hi, step).len() ==> range_values(lo, hi, step)[i]
                < range_values(lo, hi, step)[j],
        forall|x: u32|
            range_values(lo, hi, step).contains(x) <==> (lo <= x <= hi && (x - lo) % (
            step as int) == 0),
{
    let vs = range_values(lo, hi, step);
    let q = (hi - lo) / (step as int);
    assert(q >= 0 && q * step <= hi - lo) by {
        vstd::arithmetic::div_mod::lemma_fundamental_div_mod(hi - lo, step as int);
        vstd::arithmetic::div_mod::lemma_mod_bound(hi - lo, step as int);
    }
    assert forall|i: int| 0 <= i < vs.len() implies lo <= #[trigger] vs[i] <= hi by {
        assert(i * step <= q * step) by {
            vstd::arithmetic::mul::lemma_mul_inequality(i, q, step as int);
        }
        assert(i * step >= 0) by {
            vstd::arithmetic::mul::lemma_mul_nonnegative(i, step as int);
        }
    }
    assert forall|i: int, j: int| 0 <= i < j < vs.len() implies vs[i] < vs[j] by {
        assert(i * step < j * step) by {
            vstd::arithmetic::mul::lemma_mul_strict_inequality(i, j, step as int);
        }
        assert(j * step <= q * step) by {
            vstd::arithmetic::mul::lemma_mul_inequality(j, q, step as int);
        }
    }
    assert forall|x: u32| vs.contains(x) implies (lo <= x <= hi && (x - lo) % (step as int)
        == 0) by {
        let i = choose|i: int| 0 <= i < vs.len() && vs[i] == x;
        assert(i * step <= q * step) by {
            vstd::arithmetic::mul::lemma_mul_inequality(i, q, step as int);
        }
        assert(i * step >= 0) by {
            vstd::arithmetic::mul::lemma_mul_nonnegative(i, step as int);
        }
        assert((x - lo) == i * step);
        assert((i * step) % (step as int) == 0) by {
            vstd::arithmetic::div_mod::lemma_mod_multiples_basic(i, step as int);
        }
    }
    assert forall|x: u32| lo <= x <= hi && (x - lo) % (step as int) == 0 implies vs.contains(
        x,
    ) by {
        let i = (x - lo) / (step as int);
        assert(i * step == x - lo) by {
            vstd::arithmetic::div_mod::lemma_fundamental_div_mod(x - lo, step as int);
        }
        assert(0 <= i) by {
            vstd::arithmetic::div_mod::lemma_div_is_ordered(0, x - lo, step as int);
        }
        assert(i <= q) by {
            vstd::arithmetic::div_mod::lemma_div_is_ordered(x - lo, hi - lo, step as int);
        }
        assert(vs[i] == x);
    }
}

/// Expands the base `[lo, hi]` walked with stride `step` into its value list.
fn expand_range(lo: u32, hi: u32, step: u32) -> (r: Vec<u32>)
    requires
        lo <= hi,
        step >= 1,
    ensures
        r@ == range_values(lo, hi, step),
{
    let ghost vs = range_values(lo, hi, step);
    let ghost q = (hi - lo) / (step as int);
    proof {
        vstd::arithmetic::div_mod::lemma_fundamental_div_mod(hi - lo, step as int);
        vstd::arithmetic::div_mod::lemma_mod_bound(hi - lo, step as int);
    }
    let n: u64 = ((hi - lo) / step) as u64 + 1;
    assert(n == q + 1) by {
        assert((hi - lo) as int / step as int == q);
    }
    let mut r: Vec<u32> = Vec::new();
    let mut i: u64 = 0;
    while i < n
        invariant
            0 <= i <= n,
            lo <= hi,
            step >= 1,
            q == (hi - lo) / (step as int),
            vs == range_values(lo, hi, step),
            n == q + 1,
            q * step <= hi - lo,
            q >= 0,
            r@ =~= vs.take(i as int),
        decreases n - i,
    {
        let ghost iv = i as int;
        proof {
            vstd::arithmetic::mul::lemma_mul_inequality(iv, q, step as int);
            vstd::arithmetic::mul::lemma_mul_nonnegative(iv, step as int);
            assert(iv * (step as int) <= q * (step as int));
            assert(lo + iv * (step as int) <= hi);
        }
        let prod: u64 = i * (step as u64);
        assert(prod == iv * (step as int));
        let v: u32 = ((lo as u64) + prod) as u32;
        assert(v == (lo + iv * step) as u32);
        assert(v == vs[iv]);
        r.push(v);
        i = i + 1;
        assert(r@ =~= vs.take(i as int));
    }
    assert(vs.take(n as int) =~= vs);
    r
}

/// Parses one item (no commas) of `v[lo..hi]` and expands it to its values.
fn parse_item(v: &Vec<char>, lo: usize, hi: usize, wc: Option<(u32, u32)>) -> (r: Result<
    Vec<u32>,
    CronError,
>)
    requires
        lo <= hi <= v@.len(),
        wc matches Some((a, b)) ==> a <= b,
    ensures
        match r {
            Ok(vs) => {
                &&& item_sem(v@.subrange(lo as int, hi as int), wc) matches Some((l, h, st))
                    && vs@ == range_values(l, h, st) && l <= h && st >= 1
            },
            Err(e) => e == CronError::InvalidFieldSyntax && item_sem(
                v@.subrange(lo as int, hi as int),
                wc,
            ) is None,
        },
{
    let ghost s = v@.subrange(lo as int, hi as int);
    let (base_hi, step): (usize, u32) = match find_char(v, lo, hi, '/') {
        Some(sl) => {
            let ghost st_s = s.skip(sl - lo + 1);
            assert(st_s =~= v@.subrange(sl as int + 1, hi as int));
            match parse_u32(v, sl + 1, hi) {
                Ok(st) => {
                    if st == 0 {
                        return Err(CronError::InvalidFieldSyntax);
                    }
                    (sl, st)
                },
                Err(e) => {
                    return Err(CronError::InvalidFieldSyntax);
                },
            }
        },
        None => (hi, 1u32),
    };
    // base part is v[lo..base_hi]
    let ghost b = v@.subrange(lo as int, base_hi as int);
    proof {
        if base_hi < hi {
            assert(b =~= s.take(base_hi - lo));
        } else {
            assert(b =~= s);
        }
    }
    let (rlo, rhi): (u32, u32) = if base_hi - lo == 1 && (v[lo] == '*' || v[lo] == '?') {
        assert(b.len() == 1 && b[0] == v@[lo as int]);
        match wc {
            Some(p) => p,
            None => {
                return Err(CronError::InvalidFieldSyntax);
            },
        }
    } else {
        assert(!(b.len() == 1 && (b[0] == '*' || b[0] == '?')));
        match find_char(v, lo, base_hi, '-') {
            Some(d) => {
                let ghost pa = b.take(d - lo);
                let ghost pb = b.skip(d - lo + 1);
                assert(pa =~= v@.subrange(lo as int, d as int));
                assert(pb =~= v@.subrange(d as int + 1, base_hi as int));
                let a = match parse_u32(v, lo, d) {
                    Ok(a) => a,
                    Err(e) => {
                        return Err(CronError::InvalidFieldSyntax);
                    },
                };
                let bb = match parse_u32(v, d + 1, base_hi) {
                    Ok(bb) => bb,
                    Err(e) => {
                        return Err(CronError::InvalidFieldSyntax);
                    },
                };
                if a > bb {
                    return Err(CronError::InvalidFieldSyntax);
                }
                (a, bb)
            },
            None => {
                match parse_u32(v, lo, base_hi) {
                    Ok(a) => (a, a),
                    Err(e) => {
                        return Err(CronError::InvalidFieldSyntax);
                    },
                }
            },
        }
    };
    Ok(expand_range(rlo, rhi, step))
}

/// Parses a comma-separated item list over `v[lo..hi]`, concatenating the
/// items' values in order.
fn parse_items(v: &Vec<char>, lo: usize, hi: usize, wc: Option<(u32, u32)>) -> (r: Result<
    Vec<u32>,
    CronError,
>)
    requires
        lo <= hi <= v@.len(),
        wc matches Some((a, b)) ==> a <= b,
    ensures
        match r {
            Ok(vs) => items_sem(v@.subrange(lo as int, hi as int), wc) == Some(vs@),
            Err(e) => e == CronError::InvalidFieldSyntax && items_sem(
                v@.subrange(lo as int, hi as int),
                wc,
            ) is None,
        },
{
    let ghost whole = v@.subrange(lo as int, hi as int);
    let mut acc: Vec<u32> = Vec::new();
    let mut pos: usize = lo;
    loop
        invariant
            lo <= pos <= hi <= v@.len(),
            whole == v@.subrange(lo as int, hi as int),
            wc matches Some((a, b)) ==> a <= b,
            ({
                let rest = items_sem(v@.subrange(pos as int, hi as int), wc);
                &&& (rest matches Some(rs) ==> items_sem(whole, wc) == Some(acc@ + rs))
                &&& (rest is None ==> items_sem(whole, wc) is None)
            }),
        decreases hi - pos,
    {
        let ghost cur = v@.subrange(pos as int, hi as int);
        match find_char(v, pos, hi, ',') {
            Some(c) => {
                proof {
                    assert(cur.take(c - pos) =~= v@.subrange(pos as int, c as int));
                    assert(cur.skip(c - pos + 1) =~= v@.subrange(c as int + 1, hi as int));
                }
                match parse_item(v, pos, c, wc) {
                    Ok(mut vals) => {
                        let ghost old_acc = acc@;
                        let ghost vals_v = vals@;
                        acc.append(&mut vals);
                        assert(acc@ == old_acc + vals_v);
                        proof {
                            let rest2 = items_sem(v@.subrange(c as int + 1, hi as int), wc);
                            if rest2 is Some {
                                assert(acc@ + rest2.unwrap() =~= old_acc + (vals_v
                                    + rest2.unwrap()));
                            }
                        }
                        pos = c + 1;
                    },
                    Err(e) => {
                        return Err(CronError::InvalidFieldSyntax);
                    },
                }
            },
            None => {
                match parse_item(v, pos, hi, wc) {
                    Ok(mut vals) => {
                        let ghost old_acc = acc@;
                        let ghost vals_v = vals@;
                        acc.append(&mut vals);
                        assert(acc@ =~= old_acc + vals_v);
                        return Ok(acc);
                    },
                    Err(e) => {
                        return Err(CronError::InvalidFieldSyntax);
                    },
                }
            },
        }
    }
}

/// Parses a numeric base (`a` or `a-b`) and expands it with the given stride.
///
/// A zero stride is malformed. Wildcards are not accepted here: this entry
/// point has no field bounds to expand them with.
pub fn parse_range(val: &str, repeat_interval: u32) -> (r: Result<Vec<u32>, CronError>)
    ensures
        match r {
            Ok(vs) => repeat_interval >= 1 && (base_sem(val@, None) matches Some((l, h)) && l <= h
                && vs@ == range_values(l, h, repeat_interval)),
            Err(e) => e == CronError::InvalidFieldSyntax && (repeat_interval == 0 || base_sem(
                val@,
                None,
            ) is None),
        },
{
    if repeat_interval == 0 {
        return Err(CronError::InvalidFieldSyntax);
    }
    let v = chars_of(val);
    let n = v.len();
    assert(v@.subrange(0, n as int) =~= val@);
    match find_char(&v, 0, n, '-') {
        Some(d) => {
            assert(val@.take(d as int) =~= v@.subrange(0, d as int));
            assert(val@.skip(d as int + 1) =~= v@.subrange(d as int + 1, n as int));
            let a = match parse_u32(&v, 0, d) {
                Ok(a) => a,
                Err(e) => {
                    return Err(CronError::InvalidFieldSyntax);
                },
            };
            let b = match parse_u32(&v, d + 1, n) {
                Ok(b) => b,
                Err(e) => {
                    return Err(CronError::InvalidFieldSyntax);
                },
            };
            if a > b {
                return Err(CronError::InvalidFieldSyntax);
            }
            Ok(expand_range(a, b, repeat_interval))
        },
        None => {
            match parse_u32(&v, 0, n) {
                Ok(a) => Ok(expand_range(a, a, repeat_interval)),
                Err(e) => Err(CronError::InvalidFieldSyntax),
            }
        },
    }
}

/// Parses one item: a numeric base with an optional `/step` suffix.
pub fn parse_repeat(val: &str) -> (r: Result<Vec<u32>, CronError>)
    ensures
        match r {
            Ok(vs) => item_sem(val@, None) matches Some((l, h, st)) && vs@ == range_values(
                l,
                h,
                st,
            ),
            Err(e) => e == CronError::InvalidFieldSyntax && item_sem(val@, None) is None,
        },
{
    let v = chars_of(val);
    let n = v.len();
    assert(v@.subrange(0, n as int) =~= val@);
    parse_item(&v, 0, n, None)
}

/// Parses a comma-separated list of numeric items, concatenating their values
/// in order (no sorting, no deduplication, no field bounds).
pub fn parse_sequence(val: &str) -> (r: Result<Vec<u32>, CronError>)
    ensures
        match r {
            Ok(vs) => items_sem(val@, None) == Some(vs@),
            Err(e) => e == CronError::InvalidFieldSyntax && items_sem(val@, None) is None,
        },
{
    let v = chars_of(val);
    let n = v.len();
    assert(v@.subrange(0, n as int) =~= val@);
    parse_items(&v, 0, n, None)
}

/// The values are strictly ascending (hence duplicate-free).
pub open spec fn strictly_sorted(s: Seq<u32>) -> bool {
    forall|i: int, j: int| 0 <= i < j < s.len() ==> s[i] < s[j]
}

/// Every value lies within `[min, max]`.
pub open spec fn in_range_all(vs: Seq<u32>, min: u32, max: u32) -> bool {
    forall|i: int| 0 <= i < vs.len() ==> min <= #[trigger] vs[i] <= max
}

/// One parsed cron field: a nonempty, sorted, duplicate-free set of values,
/// each within the slot's `[min, max]` range.
#[derive(Debug, Clone, PartialEq, Eq)]
pub struct ScheduleField {
    pub values: Vec<u32>,
    pub min: u32,
    pub max: u32,
}

impl ScheduleField {
    /// The field's invariant, established by `parse_field`.
    pub open spec fn wf(&self) -> bool {
        &&& self.min <= self.max
        &&& self.values@.len() > 0
        &&& strictly_sorted(self.values@)
        &&& in_range_all(self.values@, self.min, self.max)
    }
}

/// A successful item always has ordered bounds and a positive step.
pub proof fn lemma_item_sem_bounds(s: Seq<char>, wc: Option<(u32, u32)>)
    requires
        wc matches Some((a, b)) ==> a <= b,
        item_sem(s, wc) is Some,
    ensures
        item_sem(s, wc) matches Some((lo, hi, step)) && lo <= hi && step >= 1,
{
    let sl = first_index(s, '/');
    let b = if sl < 0 {
        s
    } else {
        s.take(sl)
    };
    assert(base_sem(b, wc) is Some);
    if !(b.len() == 1 && (b[0] == '*' || b[0] == '?')) {
        let d = first_index(b, '-');
        if d < 0 {
            crate::chars::lemma_digits_val_nonneg(b);
        } else {
            crate::chars::lemma_digits_val_nonneg(b.take(d));
            crate::chars::lemma_digits_val_nonneg(b.skip(d + 1));
        }
    }
    if sl >= 0 {
        crate::chars::lemma_digits_val_nonneg(s.skip(sl + 1));
    }
}

/// A successful item list always denotes at least one value.
pub proof fn lemma_items_sem_nonempty(s: Seq<char>, wc: Option<(u32, u32)>)
    requires
        wc matches Some((a, b)) ==> a <= b,
        items_sem(s, wc) is Some,
    ensures
        items_sem(s, wc).unwrap().len() >= 1,
    decreases s.len(),
{
    let c = first_index(s, ',');
    if 0 <= c < s.len() {
        lemma_items_sem_nonempty(s.skip(c + 1), wc);
    } else {
        lemma_item_sem_bounds(s, wc);
        let (lo, hi, step) = item_sem(s, wc).unwrap();
        lemma_range_values_props(lo, hi, step);
    }
}

/// Inserts `x` into a strictly sorted vector, keeping it sorted and
/// duplicate-free.
fn insert_sorted(r: &mut Vec<u32>, x: u32)
    requires
        strictly_sorted(old(r)@),
    ensures
        strictly_sorted(final(r)@),
        forall|y: u32| final(r)@.contains(y) <==> (old(r)@.contains(y) || y == x),
{
    let n = r.len();
    let mut p: usize = 0;
    while p < n && r[p] < x
        invariant
            p <= n,
            n == r@.len(),
            r@ == old(r)@,
            forall|j: int| 0 <= j < p ==> r@[j] < x,
        decreases n - p,
    {
        p = p + 1;
    }
    if p < n && r[p] == x {
        assert(old(r)@.contains(x)) by {
            assert(old(r)@[p as int] == x);
        }
        return ;
    }
    proof {
        assert forall|j: int| p <= j < r@.len() implies r@[j] > x by {
            if j > p {
                assert(r@[p as int] < r@[j]);
            }
        }
    }
    let ghost before = r@;
    r.insert(p, x);
    assert(r@ == before.insert(p as int, x));
    proof {
        before.insert_ensures(p as int, x);
        assert forall|i: int, j: int| 0 <= i < j < r@.len() implies r@[i] < r@[j] by {
            if j < p {
                assert(r@[i] == before[i] && r@[j] == before[j]);
            } else if i > p {
                assert(r@[i] == before[i - 1] && r@[j] == before[j - 1]);
            } else if i < p && j == p {
                assert(r@[i] == before[i]);
            } else if i < p && j > p {
                assert(r@[i] == before[i] && r@[j] == before[j - 1]);
            } else if i == p {
                assert(r@[j] == before[j - 1]);
            }
        }
        assert forall|y: u32| r@.contains(y) <==> (before.contains(y) || y == x) by {
            if r@.contains(y) {
                let i = choose|i: int| 0 <= i < r@.len() && r@[i] == y;
                if i < p {
                    assert(before[i] == y);
                    assert(before.contains(y));
                } else if i > p {
                    assert(before[i - 1] == y);
                    assert(before.contains(y));
                }
            }
            if y == x {
                assert(r@[p as int] == y);
                assert(r@.contains(y));
            }
            if before.contains(y) {
                let i = choose|i: int| 0 <= i < before.len() && before[i] == y;
                if i < p {
                    assert(r@[i] == y);
                } else {
                    assert(r@[i + 1] == y);
                }
                assert(r@.contains(y));
            }
        }
    }
}

/// Sorts the values ascending and removes duplicates.
fn sort_dedup(vs: &Vec<u32>) -> (r: Vec<u32>)
    ensures
        strictly_sorted(r@),
        forall|y: u32| r@.contains(y) <==> vs@.contains(y),
{
    let mut r: Vec<u32> = Vec::new();
    let n = vs.len();
    let mut i: usize = 0;
    while i < n
        invariant
            i <= n,
            n == vs@.len(),
            strictly_sorted(r@),
            forall|y: u32| r@.contains(y) <==> vs@.take(i as int).contains(y),
        decreases n - i,
    {
        let x = vs[i];
        let ghost prefix = vs@.take(i as int);
        let ghost rbefore = r@;
        insert_sorted(&mut r, x);
        i = i + 1;
        proof {
            let prefix2 = vs@.take(i as int);
            assert forall|y: u32| r@.contains(y) implies prefix2.contains(y) by {
                if rbefore.contains(y) {
                    let k = choose|k: int| 0 <= k < prefix.len() && prefix[k] == y;
                    assert(prefix2[k] == y);
                } else {
                    assert(prefix2[i - 1] == y);
                }
            }
            assert forall|y: u32| prefix2.contains(y) implies r@.contains(y) by {
                let k = choose|k: int| 0 <= k < prefix2.len() && prefix2[k] == y;
                if k < i - 1 {
                    assert(prefix[k] == y);
                }
            }
        }
    }
    assert(vs@.take(n as int) =~= vs@);
    r
}

/// The meaning of a whole field in its slot's bounds: the items' values, where
/// a wildcard stands for `[min, max]`.
pub open spec fn field_sem(s: Seq<char>, min: u32, max: u32) -> Option<Seq<u32>> {
    items_sem(s, Some((min, max)))
}

/// Which error, if any, parsing a field in the given bounds yields.
pub open spec fn field_err(s: Seq<char>, min: u32, max: u32) -> Option<CronError> {
    match field_sem(s, min, max) {
        None => Some(CronError::InvalidFieldSyntax),
        Some(vs) => if !in_range_all(vs, min, max) {
            Some(CronError::ValueOutOfRange)
        } else {
            None
        },
    }
}

/// What a successfully parsed field looks like: the sorted deduplicated value
/// set of the field's meaning, all within bounds.
pub open spec fn field_parse_ok(f: ScheduleField, s: Seq<char>, min: u32, max: u32) -> bool {
    &&& f.min == min && f.max == max
    &&& f.wf()
    &&& field_err(s, min, max) is None
    &&& (field_sem(s, min, max) matches Some(vs) && (forall|y: u32|
        f.values@.contains(y) <==> vs.contains(y)))
}

/// Parses one field over `v[lo..hi]` with the slot bounds `[min, max]`.
fn parse_field_vec(v: &Vec<char>, lo: usize, hi: usize, min: u32, max: u32) -> (r: Result<
    ScheduleField,
    CronError,
>)
    requires
        lo <= hi <= v@.len(),
        min <= max,
    ensures
        match r {
            Ok(f) => field_parse_ok(f, v@.subrange(lo as int, hi as int), min, max),
            Err(e) => field_err(v@.subrange(lo as int, hi as int), min, max) == Some(e),
        },
{
    let ghost s = v@.subrange(lo as int, hi as int);
    let vals = match parse_items(v, lo, hi, Some((min, max))) {
        Ok(vals) => vals,
        Err(e) => {
            return Err(e);
        },
    };
    let n = vals.len();
    let mut i: usize = 0;
    while i < n
        invariant
            i <= n,
            n == vals@.len(),
            lo <= hi <= v@.len(),
            min <= max,
            s == v@.subrange(lo as int, hi as int),
            field_sem(s, min, max) == Some(vals@),
            forall|j: int| 0 <= j < i ==> min <= #[trigger] vals@[j] <= max,
        decreases n - i,
    {
        let x = vals[i];
        if x < min || x > max {
            assert(!in_range_all(vals@, min, max)) by {
                assert(!(min <= vals@[i as int] <= max));
            }
            return Err(CronError::ValueOutOfRange);
        }
        i = i + 1;
    }
    let values = sort_dedup(&vals);
    proof {
        lemma_items_sem_nonempty(s, Some((min, max)));
        assert(values@.contains(vals@[0]));
        assert(values@.len() > 0);
        assert forall|j: int| 0 <= j < values@.len() implies min <= #[trigger] values@[j]
            <= max by {
            assert(values@.contains(values@[j]));
            let k = choose|k: int| 0 <= k < vals@.len() && vals@[k] == values@[j];
        }
    }
    Ok(ScheduleField { values, min, max })
}

/// Parses one raw cron field against the slot bounds `[min, max]`.
///
/// Fails with `InvalidFieldSyntax` on a malformed field and `ValueOutOfRange`
/// when a value falls outside `[min, max]`; otherwise the result is the
/// field's sorted, duplicate-free value set.
pub fn parse_field(val: &str, min: u32, max: u32) -> (r: Result<ScheduleField, CronError>)
    requires
        min <= max,
    ensures
        match r {
            Ok(f) => field_parse_ok(f, val@, min, max),
            Err(e) => field_err(val@, min, max) == Some(e),
        },
{
    let v = chars_of(val);
    let n = v.len();
    assert(v@.subrange(0, n as int) =~= val@);
    parse_field_vec(&v, 0, n, min, max)
}

/// The space-separated parts of a schedule string (empty parts included, as
/// produced by consecutive spaces).
pub open spec fn split_spaces(s: Seq<char>) -> Seq<Seq<char>>
    decreases s.len(),
{
    let c = first_index(s, ' ');
    if 0 <= c < s.len() {
        seq![s.take(c)] + split_spaces(s.skip(c + 1))
    } else {
        seq![s]
    }
}

pub proof fn lemma_split_spaces_len(s: Seq<char>)
    ensures
        split_spaces(s).len() >= 1,
{
}

/// The five slots of a schedule, in field order: minute, hour, day of month,
/// month, day of week.
pub open spec fn slot_min(i: int) -> u32 {
    if i == 0 {
        0u32
    } else if i == 1 {
        0u32
    } else if i == 2 {
        1u32
    } else if i == 3 {
        1u32
    } else {
        0u32
    }
}

pub open spec fn slot_max(i: int) -> u32 {
    if i == 0 {
        59u32
    } else if i == 1 {
        23u32
    } else if i == 2 {
        31u32
    } else if i == 3 {
        12u32
    } else {
        7u32
    }
}

/// Which error, if any, parsing a whole five-field schedule string yields:
/// the first failing field decides, scanning left to right.
pub open spec fn cron_err(s: Seq<char>) -> Option<CronError> {
    let parts = split_spaces(s);
    if parts.len() != 5 {
        Some(CronError::InvalidFieldSyntax)
    } else if field_err(parts[0], slot_min(0), slot_max(0)) is Some {
        field_err(parts[0], slot_min(0), slot_max(0))
    } else if field_err(parts[1], slot_min(1), slot_max(1)) is Some {
        field_err(parts[1], slot_min(1), slot_max(1))
    } else if field_err(parts[2], slot_min(2), slot_max(2)) is Some {
        field_err(parts[2], slot_min(2), slot_max(2))
    } else if field_err(parts[3], slot_min(3), slot_max(3)) is Some {
        field_err(parts[3], slot_min(3), slot_max(3))
    } else if field_err(parts[4], slot_min(4), slot_max(4)) is Some {
        field_err(parts[4], slot_min(4), slot_max(4))
    } else {
        None
    }
}

/// The five parsed fields of one schedule, immutable after construction.
#[derive(Debug, Clone, PartialEq, Eq)]
pub struct ScheduleSpec {
    pub minute: ScheduleField,
    pub hour: ScheduleField,
    pub day_of_month: ScheduleField,
    pub month: ScheduleField,
    pub day_of_week: ScheduleField,
}

impl ScheduleSpec {
    /// Each field is well formed in its slot's bounds.
    pub open spec fn wf(&self) -> bool {
        &&& self.minute.wf() && self.minute.min == 0 && self.minute.max == 59
        &&& self.hour.wf() && self.hour.min == 0 && self.hour.max == 23
        &&& self.day_of_month.wf() && self.day_of_month.min == 1 && self.day_of_month.max == 31
        &&& self.month.wf() && self.month.min == 1 && self.month.max == 12
        &&& self.day_of_week.wf() && self.day_of_week.min == 0 && self.day_of_week.max == 7
    }
}

/// What a successfully parsed schedule looks like, relative to the five
/// space-separated parts of its text.
pub open spec fn cron_parse_ok(sp: ScheduleSpec, s: Seq<char>) -> bool {
    let parts = split_spaces(s);
    &&& parts.len() == 5
    &&& sp.wf()
    &&& field_parse_ok(sp.minute, parts[0], slot_min(0), slot_max(0))
    &&& field_parse_ok(sp.hour, parts[1], slot_min(1), slot_max(1))
    &&& field_parse_ok(sp.day_of_month, parts[2], slot_min(2), slot_max(2))
    &&& field_parse_ok(sp.month, parts[3], slot_min(3), slot_max(3))
    &&& field_parse_ok(sp.day_of_week, parts[4], slot_min(4), slot_max(4))
}

proof fn lemma_split_spaces_step(s: Seq<char>, c: int)
    requires
        first_index(s, ' ') == c,
        0 <= c < s.len(),
    ensures
        split_spaces(s) == seq![s.take(c)] + split_spaces(s.skip(c + 1)),
{
}

proof fn lemma_split_spaces_single(s: Seq<char>)
    requires
        first_index(s, ' ') < 0 || first_index(s, ' ') >= s.len(),
    ensures
        split_spaces(s) == seq![s],
{
}

/// Locates the four spaces separating the five fields of a schedule string.
#[verifier::rlimit(100)]
fn split_five(v: &Vec<char>) -> (r: Result<(usize, usize, usize, usize), CronError>)
    ensures
        match r {
            Ok((c1, c2, c3, c4)) => {
                let parts = split_spaces(v@);
                &&& c1 < c2 < c3 < c4 < v@.len()
                &&& parts.len() == 5
                &&& parts[0] == v@.subrange(0, c1 as int)
                &&& parts[1] == v@.subrange(c1 as int + 1, c2 as int)
                &&& parts[2] == v@.subrange(c2 as int + 1, c3 as int)
                &&& parts[3] == v@.subrange(c3 as int + 1, c4 as int)
                &&& parts[4] == v@.subrange(c4 as int + 1, v@.len() as int)
            },
            Err(e) => e == CronError::InvalidFieldSyntax && split_spaces(v@).len() != 5,
        },
{
    let n = v.len();
    let ghost s = v@;
    assert(v@.subrange(0, n as int) =~= s);
    let ghost parts = split_spaces(s);

    let c1 = match find_char(v, 0, n, ' ') {
        Some(c) => c,
        None => {
            proof {
                lemma_split_spaces_single(s);
            }
            return Err(CronError::InvalidFieldSyntax);
        },
    };
    let ghost r1 = s.skip(c1 + 1);
    proof {
        lemma_split_spaces_step(s, c1 as int);
        assert(r1 =~= v@.subrange(c1 as int + 1, n as int));
    }
    let c2 = match find_char(v, c1 + 1, n, ' ') {
        Some(c) => c,
        None => {
            proof {
                lemma_split_spaces_single(r1);
                assert(parts.len() == 2);
            }
            return Err(CronError::InvalidFieldSyntax);
        },
    };
    let ghost r2 = r1.skip(c2 - c1);
    proof {
        assert(first_index(r1, ' ') == c2 - c1 - 1);
        lemma_split_spaces_step(r1, c2 - c1 - 1);
        assert(r1.skip((c2 - c1 - 1) + 1) == r2);
        assert(r2 =~= v@.subrange(c2 as int + 1, n as int));
        assert(parts.len() == 2 + split_spaces(r2).len());
    }
    let c3 = match find_char(v, c2 + 1, n, ' ') {
        Some(c) => c,
        None => {
            proof {
                lemma_split_spaces_single(r2);
                assert(parts.len() == 3);
            }
            return Err(CronError::InvalidFieldSyntax);
        },
    };
    let ghost r3 = r2.skip(c3 - c2);
    proof {
        assert(first_index(r2, ' ') == c3 - c2 - 1);
        lemma_split_spaces_step(r2, c3 - c2 - 1);
        assert(r2.skip((c3 - c2 - 1) + 1) == r3);
        assert(r3 =~= v@.subrange(c3 as int + 1, n as int));
        assert(parts.len() == 3 + split_spaces(r3).len());
    }
    let c4 = match find_char(v, c3 + 1, n, ' ') {
        Some(c) => c,
        None => {
            proof {
                lemma_split_spaces_single(r3);
                assert(parts.len() == 4);
            }
            return Err(CronError::InvalidFieldSyntax);
        },
    };
    let ghost r4 = r3.skip(c4 - c3);
    proof {
        assert(first_index(r3, ' ') == c4 - c3 - 1);
        lemma_split_spaces_step(r3, c4 - c3 - 1);
        assert(r3.skip((c4 - c3 - 1) + 1) == r4);
        assert(r4 =~= v@.subrange(c4 as int + 1, n as int));
        assert(parts.len() == 4 + split_spaces(r4).len());
    }
    if let Some(c5) = find_char(v, c4 + 1, n, ' ') {
        proof {
            assert(first_index(r4, ' ') == c5 - c4 - 1);
            lemma_split_spaces_step(r4, c5 - c4 - 1);
            lemma_split_spaces_len(r4.skip((c5 - c4 - 1) + 1));
            assert(parts.len() >= 6);
        }
        return Err(CronError::InvalidFieldSyntax);
    }
    proof {
        assert(first_index(r4, ' ') == -1);
        lemma_split_spaces_single(r4);
        assert(parts.len() == 5);
        assert(parts[0] =~= v@.subrange(0, c1 as int));
        assert(parts[1] =~= v@.subrange(c1 as int + 1, c2 as int));
        assert(parts[2] =~= v@.subrange(c2 as int + 1, c3 as int));
        assert(parts[3] =~= v@.subrange(c3 as int + 1, c4 as int));
        assert(parts[4] =~= v@.subrange(c4 as int + 1, n as int));
    }
    Ok((c1, c2, c3, c4))
}

/// Parses a five-field cron schedule string.
///
/// The string must hold exactly five space-separated fields; each parses in
/// its slot's bounds (minute 0-59, hour 0-23, day of month 1-31, month 1-12,
/// day of week 0-7). The first failing field's error is returned.
pub fn parse(cron: &str) -> (r: Result<ScheduleSpec, CronError>)
    ensures
        match r {
            Ok(sp) => cron_parse_ok(sp, cron@) && cron_err(cron@) is None,
            Err(e) => cron_err(cron@) == Some(e),
        },
{
    let v = chars_of(cron);
    let n = v.len();
    let (c1, c2, c3, c4) = match split_five(&v) {
        Ok(t) => t,
        Err(e) => {
            return Err(e);
        },
    };
    let minute = match parse_field_vec(&v, 0, c1, 0, 59) {
        Ok(f) => f,
        Err(e) => {
            return Err(e);
        },
    };
    let hour = match parse_field_vec(&v, c1 + 1, c2, 0, 23) {
        Ok(f) => f,
        Err(e) => {
            return Err(e);
        },
    };
    let day_of_month = match parse_field_vec(&v, c2 + 1, c3, 1, 31) {
        Ok(f) => f,
        Err(e) => {
            return Err(e);
        },
    };
    let month = match parse_field_vec(&v, c3 + 1, c4, 1, 12) {
        Ok(f) => f,
        Err(e) => {
            return Err(e);
        },
    };
    let day_of_week = match parse_field_vec(&v, c4 + 1, n, 0, 7) {
        Ok(f) => f,
        Err(e) => {
            return Err(e);
        },
    };
    Ok(ScheduleSpec { minute, hour, day_of_month, month, day_of_week })
}

} // verus!

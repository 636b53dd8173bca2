//! The list of CPU cores that a timekeeper may run on, as given on the command line:
//! a comma separated list of single cores (`3`) and inclusive ranges (`0-3`).
use std::collections::HashSet;
use vstd::prelude::*;
use vstd::string::StringSliceAdditionalSpecFns;

verus! {

broadcast use vstd::std_specs::hash::group_hash_axioms;

/// Why a list of CPU cores was refused.
#[derive(Debug, Clone, Copy, PartialEq, Eq)]
pub enum CpuCoresError {
    /// A core number is empty, holds something other than decimal digits
    /// (after an optional leading `+`), or does not fit in `usize`.
    InvalidCoreNumber,
}

/// `s` cut at every `sep`: `k` separators give `k + 1` pieces, empty ones included.
pub open spec fn split_on(s: Seq<u8>, sep: u8) -> Seq<Seq<u8>>
    decreases s.len(),
{
    if s.len() == 0 {
        seq![Seq::<u8>::empty()]
    } else {
        let rest = split_on(s.drop_last(), sep);
        if s.last() == sep {
            rest.push(Seq::<u8>::empty())
        } else {
            rest.update(rest.len() - 1, rest.last().push(s.last()))
        }
    }
}

pub open spec fn is_decimal_digit(b: u8) -> bool {
    48 <= b <= 57
}

pub open spec fn all_decimal_digits(d: Seq<u8>) -> bool {
    forall|i: int| 0 <= i < d.len() ==> is_decimal_digit(#[trigger] d[i])
}

/// The number that a run of decimal digits writes, most significant first.
pub open spec fn digits_value(d: Seq<u8>) -> nat
    decreases d.len(),
{
    if d.len() == 0 {
        0
    } else {
        digits_value(d.drop_last()) * 10 + (d.last() - 48) as nat
    }
}

/// The digits of a number written with an optional leading `+`.
pub open spec fn unsigned_digits(t: Seq<u8>) -> Seq<u8> {
    if t.len() > 0 && t[0] == 43u8 {
        t.drop_first()
    } else {
        t
    }
}

/// A core number as `usize`'s `FromStr` reads it: an optional `+`, then at least
/// one decimal digit, and a value that fits.
pub open spec fn core_number(t: Seq<u8>) -> Option<usize> {
    let d = unsigned_digits(t);
    if d.len() > 0 && all_decimal_digits(d) && digits_value(d) <= usize::MAX {
        Some(digits_value(d) as usize)
    } else {
        None
    }
}

/// The cores that one comma separated item names. An item is cut at `-`: the
/// first piece is the first core; a second piece, if any, is the last core of an
/// inclusive range (empty when it is below the first). Pieces after the second
/// are not read.
pub open spec fn item_cores(item: Seq<u8>) -> Option<Set<usize>> {
    let parts = split_on(item, 45u8);
    match core_number(parts[0]) {
        None => None,
        Some(start) => if parts.len() >= 2 {
            match core_number(parts[1]) {
                None => None,
                Some(end) => Some(Set::new(|c: usize| start <= c <= end)),
            }
        } else {
            Some(set![start])
        },
    }
}

/// The union of the cores of all items, or `None` when one item is refused.
pub open spec fn cores_of_items(items: Seq<Seq<u8>>) -> Option<Set<usize>>
    decreases items.len(),
{
    if items.len() == 0 {
        Some(Set::empty())
    } else {
        match (cores_of_items(items.drop_last()), item_cores(items.last())) {
            (Some(a), Some(b)) => Some(a.union(b)),
            _ => None,
        }
    }
}

/// The cores that the text `s` (its UTF-8 bytes) lists; an empty text lists none.
pub open spec fn timekeeper_cores(s: Seq<u8>) -> Option<Set<usize>> {
    if s.len() == 0 {
        Some(Set::empty())
    } else {
        cores_of_items(split_on(s, 44u8))
    }
}

pub proof fn lemma_split_on_nonempty(s: Seq<u8>, sep: u8)
    ensures
        split_on(s, sep).len() >= 1,
    decreases s.len(),
{
    if s.len() > 0 {
        lemma_split_on_nonempty(s.drop_last(), sep);
    }
}

proof fn lemma_digits_value_grows(d: Seq<u8>, k: int)
    requires
        0 <= k <= d.len(),
        all_decimal_digits(d),
    ensures
        digits_value(d.take(k)) <= digits_value(d),
    decreases d.len(),
{
    if k < d.len() {
        let p = d.drop_last();
        assert(all_decimal_digits(p));
        lemma_digits_value_grows(p, k);
        assert(p.take(k) =~= d.take(k));
        assert(d.take(d.len() as int) =~= d);
    } else {
        assert(d.take(k) =~= d);
    }
}

/// What each vector of bytes holds.
pub open spec fn byte_views(v: Seq<Vec<u8>>) -> Seq<Seq<u8>> {
    v.map_values(|x: Vec<u8>| x@)
}

/// Cuts `b` at every `sep`.
fn split_bytes(b: &[u8], sep: u8) -> (r: Vec<Vec<u8>>)
    ensures
        byte_views(r@) == split_on(b@, sep),
{
    let mut items: Vec<Vec<u8>> = Vec::new();
    let mut current: Vec<u8> = Vec::new();
    let mut i: usize = 0;
    while i < b.len()
        invariant
            i <= b@.len(),
            byte_views(items@).push(current@) == split_on(b@.take(i as int), sep),
        decreases b@.len() - i,
    {
        let c = b[i];
        proof {
            assert(b@.take(i + 1).drop_last() =~= b@.take(i as int));
            assert(b@.take(i + 1).last() == c);
        }
        if c == sep {
            items.push(current);
            current = Vec::new();
            assert(byte_views(items@).push(current@) =~= split_on(
                b@.take(i + 1),
                sep,
            ));
        } else {
            current.push(c);
            assert(byte_views(items@).push(current@) =~= split_on(
                b@.take(i + 1),
                sep,
            ));
        }
        i = i + 1;
    }
    items.push(current);
    assert(b@.take(b@.len() as int) =~= b@);
    assert(byte_views(items@) =~= split_on(b@, sep));
    items
}

/// Reads one core number.
fn parse_core_number(t: &Vec<u8>) -> (r: Option<usize>)
    ensures
        r == core_number(t@),
{
    let mut start: usize = 0;
    if t.len() > 0 && t[0] == 43u8 {
        start = 1;
    }
    let ghost d = unsigned_digits(t@);
    assert(d =~= t@.skip(start as int));
    if start == t.len() {
        return None;
    }
    let mut value: usize = 0;
    let mut i: usize = start;
    while i < t.len()
        invariant
            start <= i <= t@.len(),
            d =~= t@.skip(start as int),
            d == unsigned_digits(t@),
            all_decimal_digits(d.take(i - start)),
            value as nat == digits_value(d.take(i - start)),
        decreases t@.len() - i,
    {
        let c = t[i];
        assert(d[i - start] == c);
        if c < 48u8 || c > 57u8 {
            assert(!all_decimal_digits(d));
            assert(core_number(t@) is None);
            return None;
        }
        let digit: usize = (c - 48u8) as usize;
        assert(d.take(i + 1 - start).drop_last() =~= d.take(i - start));
        assert(all_decimal_digits(d.take(i + 1 - start)));
        assert(digits_value(d.take(i + 1 - start)) == value * 10 + digit);
        if value > (usize::MAX - digit) / 10 {
            proof {
                assert(value * 10 + digit > usize::MAX) by (nonlinear_arith)
                    requires
                        value > (usize::MAX - digit) / 10,
                        digit <= 9,
                ;
                if all_decimal_digits(d) {
                    lemma_digits_value_grows(d, i + 1 - start);
                }
                assert(core_number(t@) is None);
            }
            return None;
        }
        assert(value * 10 + digit <= usize::MAX) by (nonlinear_arith)
            requires
                value <= (usize::MAX - digit) / 10,
                digit <= 9,
        ;
        value = value * 10 + digit;
        i = i + 1;
    }
    assert(d.take(d.len() as int) =~= d);
    Some(value)
}

/// Adds the cores `start..=end` to `cores`.
fn insert_range(cores: &mut HashSet<usize>, start: usize, end: usize)
    ensures
        final(cores)@ == old(cores)@.union(Set::new(|c: usize| start <= c <= end)),
{
    if start > end {
        assert(Set::new(|c: usize| start <= c <= end) =~= Set::<usize>::empty());
        assert(old(cores)@.union(Set::<usize>::empty()) =~= old(cores)@);
        return;
    }
    let ghost base = cores@;
    let mut i: usize = start;
    while i < end
        invariant
            start <= i <= end,
            cores@ == base.union(Set::new(|c: usize| start <= c < i)),
        decreases end - i,
    {
        cores.insert(i);
        assert(cores@ =~= base.union(Set::new(|c: usize| start <= c < i + 1)));
        i = i + 1;
    }
    cores.insert(end);
    assert(cores@ =~= base.union(Set::new(|c: usize| start <= c <= end)));
}

/// Reads the CPU cores that a timekeeper may use from a comma separated list of
/// cores and inclusive ranges (`0,1,6-7`). An empty text gives no cores.
pub fn parse_timekeeper_cpu_cores(s: &str) -> (r: Result<HashSet<usize>, CpuCoresError>)
    ensures
        match r {
            Ok(cores) => timekeeper_cores(s.spec_bytes()) == Some(cores@),
            Err(_) => timekeeper_cores(s.spec_bytes()) is None,
        },
{
    let bytes = s.as_bytes();
    if bytes.len() == 0 {
        return Ok(HashSet::new());
    }
    let items = split_bytes(bytes, 44u8);
    let ghost all = byte_views(items@);
    let mut cpu_cores: HashSet<usize> = HashSet::new();
    let mut k: usize = 0;
    while k < items.len()
        invariant
            k <= items@.len(),
            all == byte_views(items@),
            all == split_on(s.spec_bytes(), 44u8),
            s.spec_bytes().len() > 0,
            cores_of_items(all.take(k as int)) == Some(cpu_cores@),
        decreases items@.len() - k,
    {
        let item = &items[k];
        assert(all.take(k + 1).drop_last() =~= all.take(k as int));
        assert(all.take(k + 1).last() == item@);
        let parts = split_bytes(item.as_slice(), 45u8);
        let ghost pv = byte_views(parts@);
        proof {
            lemma_split_on_nonempty(item@, 45u8);
        }
        assert(pv.len() >= 1);
        let range_start = match parse_core_number(&parts[0]) {
            Some(n) => n,
            None => {
                proof {
                    assert(pv[0] == parts@[0]@);
                    assert(all[k as int] == item@);
                    assert(item_cores(all[k as int]) is None);
                    lemma_cores_of_items_refused(all, k as int);
                }
                return Err(CpuCoresError::InvalidCoreNumber);
            },
        };
        assert(pv[0] == parts@[0]@);
        if parts.len() >= 2 {
            assert(pv[1] == parts@[1]@);
            let range_end = match parse_core_number(&parts[1]) {
                Some(n) => n,
                None => {
                    proof {
                        assert(all[k as int] == item@);
                        assert(item_cores(all[k as int]) is None);
                        lemma_cores_of_items_refused(all, k as int);
                    }
                    return Err(CpuCoresError::InvalidCoreNumber);
                },
            };
            insert_range(&mut cpu_cores, range_start, range_end);
        } else {
            cpu_cores.insert(range_start);
            assert(Set::<usize>::empty().insert(range_start) =~= set![range_start]);
        }
        k = k + 1;
    }
    assert(all.take(all.len() as int) =~= all);
    Ok(cpu_cores)
}

/// Once one item is refused, the whole list is.
proof fn lemma_cores_of_items_refused(items: Seq<Seq<u8>>, k: int)
    requires
        0 <= k < items.len(),
        item_cores(items[k]) is None,
    ensures
        cores_of_items(items) is None,
    decreases items.len(),
{
    if k < items.len() - 1 {
        lemma_cores_of_items_refused(items.drop_last(), k);
    }
}

} // verus!

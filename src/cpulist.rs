//! Linux CPU lists ("0-23", "0-11,24-35"): counting the CPUs they name,
//! and finding the affinity list in a process status text.
use vstd::prelude::*;
use vstd::string::StringSliceAdditionalSpecFns;

verus! {

/// ASCII whitespace, as `str::trim` removes it from ASCII text.
pub open spec fn is_space(b: u8) -> bool {
    b == 32 || (9 <= b && b <= 13)
}

/// An ASCII decimal digit.
pub open spec fn is_digit(b: u8) -> bool {
    48 <= b && b <= 57
}

/// `s` without its leading whitespace.
pub open spec fn trim_start(s: Seq<u8>) -> Seq<u8>
    decreases s.len(),
{
    if s.len() > 0 && is_space(s[0]) {
        trim_start(s.subrange(1, s.len() as int))
    } else {
        s
    }
}

/// `s` without its trailing whitespace.
pub open spec fn trim_end(s: Seq<u8>) -> Seq<u8>
    decreases s.len(),
{
    if s.len() > 0 && is_space(s.last()) {
        trim_end(s.drop_last())
    } else {
        s
    }
}

/// `s` without leading and trailing whitespace.
pub open spec fn trim(s: Seq<u8>) -> Seq<u8> {
    trim_end(trim_start(s))
}

/// Index of the first `c` in `s`, or -1.
pub open spec fn first_index_of(s: Seq<u8>, c: u8) -> int
    decreases s.len(),
{
    if s.len() == 0 {
        -1
    } else if s[0] == c {
        0
    } else {
        let r = first_index_of(s.subrange(1, s.len() as int), c);
        if r < 0 {
            -1
        } else {
            r + 1
        }
    }
}

/// The number written by a string of decimal digits.
pub open spec fn digits_value(s: Seq<u8>) -> nat
    decreases s.len(),
{
    if s.len() == 0 {
        0
    } else {
        digits_value(s.drop_last()) * 10 + (s.last() - 48) as nat
    }
}

/// `s` without one leading `+`.
pub open spec fn unsigned_part(s: Seq<u8>) -> Seq<u8> {
    if s.len() > 0 && s[0] == 43 {
        s.subrange(1, s.len() as int)
    } else {
        s
    }
}

/// Whether every byte of `d` is a digit.
pub open spec fn all_digits(d: Seq<u8>) -> bool {
    forall|i: int| 0 <= i < d.len() ==> is_digit(#[trigger] d[i])
}

/// `s` read as a `usize` the way `str::parse::<usize>` reads it: an
/// optional `+`, then one or more digits, with a value that fits.
pub open spec fn parse_usize(s: Seq<u8>) -> Option<nat> {
    let d = unsigned_part(s);
    if d.len() > 0 && all_digits(d) && digits_value(d) <= usize::MAX {
        Some(digits_value(d))
    } else {
        None
    }
}

/// CPUs one comma-separated entry names: `a-b` names `b - a + 1` of them
/// (none when `b < a`), a single number names one, anything else none.
/// The entry is trimmed first; the halves of a range are not.
pub open spec fn range_count(piece: Seq<u8>) -> nat {
    let p = trim(piece);
    let d = first_index_of(p, 45);
    if p.len() == 0 {
        0
    } else if d >= 0 {
        match (parse_usize(p.subrange(0, d)), parse_usize(p.subrange(d + 1, p.len() as int))) {
            (Some(a), Some(b)) => if b >= a {
                (b - a + 1) as nat
            } else {
                0
            },
            _ => 0,
        }
    } else {
        match parse_usize(p) {
            Some(_) => 1,
            None => 0,
        }
    }
}

/// CPUs a whole comma-separated list names.
pub open spec fn cpu_list_total(s: Seq<u8>) -> nat
    decreases s.len(),
{
    let i = first_index_of(s, 44);
    if i < 0 || i >= s.len() {
        range_count(s)
    } else {
        range_count(s.subrange(0, i)) + cpu_list_total(s.subrange(i + 1, s.len() as int))
    }
}

proof fn lemma_first_index(s: Seq<u8>, c: u8, i: int)
    requires
        0 <= i <= s.len(),
        forall|j: int| 0 <= j < i ==> s[j] != c,
        i < s.len() ==> s[i] == c,
    ensures
        first_index_of(s, c) == (if i < s.len() { i } else { -1 }),
    decreases i,
{
    if i > 0 {
        let t = s.subrange(1, s.len() as int);
        lemma_first_index(t, c, i - 1);
    }
}

proof fn lemma_trim_start(s: Seq<u8>, lo: int)
    requires
        0 <= lo <= s.len(),
        forall|j: int| 0 <= j < lo ==> is_space(#[trigger] s[j]),
        lo < s.len() ==> !is_space(s[lo]),
    ensures
        trim_start(s) == s.subrange(lo, s.len() as int),
    decreases lo,
{
    if lo == 0 {
        assert(s.subrange(0, s.len() as int) =~= s);
    } else {
        let t = s.subrange(1, s.len() as int);
        assert forall|j: int| 0 <= j < lo - 1 implies is_space(#[trigger] t[j]) by {
            assert(t[j] == s[j + 1]);
        }
        lemma_trim_start(t, lo - 1);
        assert(t.subrange(lo - 1, t.len() as int) =~= s.subrange(lo, s.len() as int));
    }
}

proof fn lemma_trim_end(s: Seq<u8>, hi: int)
    requires
        0 <= hi <= s.len(),
        forall|j: int| hi <= j < s.len() ==> is_space(#[trigger] s[j]),
        hi > 0 ==> !is_space(s[hi - 1]),
    ensures
        trim_end(s) == s.subrange(0, hi),
    decreases s.len() - hi,
{
    if hi == s.len() {
        assert(s.subrange(0, hi) =~= s);
    } else {
        let t = s.drop_last();
        lemma_trim_end(t, hi);
        assert(t.subrange(0, hi) =~= s.subrange(0, hi));
    }
}

proof fn lemma_digits_prefix(d: Seq<u8>, k: int)
    requires
        0 <= k <= d.len(),
        forall|i: int| 0 <= i < d.len() ==> is_digit(#[trigger] d[i]),
    ensures
        digits_value(d) >= digits_value(d.subrange(0, k)),
    decreases d.len() - k,
{
    if k < d.len() {
        lemma_digits_prefix(d.drop_last(), k);
        assert(d.drop_last().subrange(0, k) =~= d.subrange(0, k));
    } else {
        assert(d.subrange(0, k) =~= d);
    }
}

/// Reads `b[lo..hi]` as a `usize` (see `parse_usize`).
fn parse_decimal(b: &[u8], lo: usize, hi: usize) -> (r: Option<usize>)
    requires
        lo <= hi <= b@.len(),
    ensures
        r == (match parse_usize(b@.subrange(lo as int, hi as int)) {
            Some(v) => Some(v as usize),
            None => None,
        }),
{
    let ghost s = b@.subrange(lo as int, hi as int);
    let mut start = lo;
    if lo < hi && b[lo] == 43u8 {
        start = lo + 1;
    }
    let ghost d = b@.subrange(start as int, hi as int);
    assert(d =~= unsigned_part(s));
    if start == hi {
        return None;
    }
    let mut value: u128 = 0;
    let mut i = start;
    while i < hi
        invariant
            start <= i <= hi <= b@.len(),
            d == b@.subrange(start as int, hi as int),
            s == b@.subrange(lo as int, hi as int),
            d == unsigned_part(s),
            value == digits_value(d.subrange(0, i - start)),
            value <= usize::MAX,
            forall|j: int| 0 <= j < i - start ==> is_digit(#[trigger] d[j]),
        decreases hi - i,
    {
        let c = b[i];
        if c < 48u8 || c > 57u8 {
            assert(!is_digit(d[i - start]));
            assert(!all_digits(d));
            return None;
        }
        let ghost pre = d.subrange(0, i - start);
        let ghost next = d.subrange(0, i - start + 1);
        assert(next.drop_last() =~= pre);
        value = value * 10 + (c - 48u8) as u128;
        i = i + 1;
        if value > usize::MAX as u128 {
            proof {
                if all_digits(d) {
                    lemma_digits_prefix(d, i - start);
                }
            }
            return None;
        }
    }
    assert(d.subrange(0, d.len() as int) =~= d);
    Some(value as usize)
}

fn is_space_byte(c: u8) -> (r: bool)
    ensures
        r == is_space(c),
{
    c == 32u8 || (9u8 <= c && c <= 13u8)
}

/// Bounds of `b[lo..hi]` with its surrounding whitespace removed.
fn trim_bounds(b: &[u8], lo: usize, hi: usize) -> (r: (usize, usize))
    requires
        lo <= hi <= b@.len(),
    ensures
        lo <= r.0 <= r.1 <= hi,
        b@.subrange(r.0 as int, r.1 as int) == trim(b@.subrange(lo as int, hi as int)),
{
    let mut a = lo;
    while a < hi && is_space_byte(b[a])
        invariant
            lo <= a <= hi <= b@.len(),
            forall|j: int| lo <= j < a ==> is_space(#[trigger] b@[j]),
        decreases hi - a,
    {
        a = a + 1;
    }
    let mut z = hi;
    while z > a && is_space_byte(b[z - 1])
        invariant
            lo <= a <= z <= hi <= b@.len(),
            forall|j: int| z <= j < hi ==> is_space(#[trigger] b@[j]),
        decreases z - a,
    {
        z = z - 1;
    }
    proof {
        let s = b@.subrange(lo as int, hi as int);
        assert forall|j: int| 0 <= j < a - lo implies is_space(#[trigger] s[j]) by {
            assert(s[j] == b@[lo + j]);
        }
        lemma_trim_start(s, a - lo);
        let t = s.subrange(a - lo, s.len() as int);
        assert(t =~= b@.subrange(a as int, hi as int));
        assert forall|j: int| z - a <= j < t.len() implies is_space(#[trigger] t[j]) by {
            assert(t[j] == b@[a + j]);
        }
        lemma_trim_end(t, z - a);
        assert(t.subrange(0, z - a) =~= b@.subrange(a as int, z as int));
    }
    (a, z)
}

/// `min(x, usize::MAX)`.
pub open spec fn saturated(x: int) -> int {
    if x <= usize::MAX {
        x
    } else {
        usize::MAX as int
    }
}

/// CPUs the entry `b[lo..hi]` names, saturated at `usize::MAX`.
fn count_range(b: &[u8], lo: usize, hi: usize) -> (r: usize)
    requires
        lo <= hi <= b@.len(),
    ensures
        r == saturated(range_count(b@.subrange(lo as int, hi as int)) as int),
{
    let (a, z) = trim_bounds(b, lo, hi);
    let ghost p = b@.subrange(a as int, z as int);
    if a == z {
        return 0;
    }
    let mut d = a;
    while d < z && b[d] != 45u8
        invariant
            a <= d <= z <= b@.len(),
            forall|j: int| a <= j < d ==> b@[j] != 45u8,
        decreases z - d,
    {
        d = d + 1;
    }
    proof {
        assert forall|j: int| 0 <= j < d - a implies p[j] != 45u8 by {
            assert(p[j] == b@[a + j]);
        }
        lemma_first_index(p, 45u8, d - a);
    }
    if d < z {
        assert(p.subrange(0, d - a) =~= b@.subrange(a as int, d as int));
        assert(p.subrange(d - a + 1, p.len() as int) =~= b@.subrange(d + 1, z as int));
        match (parse_decimal(b, a, d), parse_decimal(b, d + 1, z)) {
            (Some(first), Some(last)) => if last >= first {
                if last - first == usize::MAX {
                    usize::MAX
                } else {
                    last - first + 1
                }
            } else {
                0
            },
            _ => 0,
        }
    } else {
        match parse_decimal(b, a, z) {
            Some(_) => 1,
            None => 0,
        }
    }
}

/// CPUs the list `b[lo..hi]` names, saturated at `usize::MAX`.
fn count_cpu_list(b: &[u8], lo: usize, hi: usize) -> (r: usize)
    requires
        lo <= hi <= b@.len(),
    ensures
        r == saturated(cpu_list_total(b@.subrange(lo as int, hi as int)) as int),
{
    let ghost whole = b@.subrange(lo as int, hi as int);
    let mut count: usize = 0;
    let mut start = lo;
    let mut i = lo;
    let ghost mut done: int = 0;
    assert(b@.subrange(start as int, hi as int) =~= whole);
    while i < hi
        invariant
            lo <= start <= i <= hi <= b@.len(),
            whole == b@.subrange(lo as int, hi as int),
            forall|j: int| start <= j < i ==> b@[j] != 44u8,
            done >= 0,
            done + cpu_list_total(b@.subrange(start as int, hi as int)) == cpu_list_total(whole),
            count == saturated(done),
        decreases hi - i,
    {
        if b[i] == 44u8 {
            let ghost rest = b@.subrange(start as int, hi as int);
            proof {
                assert forall|j: int| 0 <= j < i - start implies rest[j] != 44u8 by {
                    assert(rest[j] == b@[start + j]);
                }
                lemma_first_index(rest, 44u8, i - start);
                assert(rest.subrange(0, i - start) =~= b@.subrange(start as int, i as int));
                assert(rest.subrange(i - start + 1, rest.len() as int) =~= b@.subrange(
                    i + 1,
                    hi as int,
                ));
            }
            let c = count_range(b, start, i);
            proof {
                done = done + range_count(b@.subrange(start as int, i as int));
            }
            count = if c > usize::MAX - count {
                usize::MAX
            } else {
                count + c
            };
            start = i + 1;
        }
        i = i + 1;
    }
    let ghost rest = b@.subrange(start as int, hi as int);
    proof {
        assert forall|j: int| 0 <= j < hi - start implies rest[j] != 44u8 by {
            assert(rest[j] == b@[start + j]);
        }
        lemma_first_index(rest, 44u8, hi - start);
        assert(rest =~= b@.subrange(start as int, hi as int));
    }
    let c = count_range(b, start, hi);
    if c > usize::MAX - count {
        usize::MAX
    } else {
        count + c
    }
}

/// The number of CPUs a Linux CPU list such as `0-11,24-35` names:
/// comma-separated entries, each trimmed, each a single CPU or an
/// inclusive range. Entries that do not parse (and ranges whose end is
/// below their start) count as none; the count saturates at `usize::MAX`.
pub fn parse_cpu_list(cpu_list: &str) -> (r: usize)
    ensures
        r == saturated(cpu_list_total(cpu_list.spec_bytes()) as int),
{
    let b = cpu_list.as_bytes();
    let r = count_cpu_list(b, 0, b.len());
    assert(b@.subrange(0, b@.len() as int) =~= b@);
    r
}

/// The bytes of `Cpus_allowed_list:`, the key of the affinity line of
/// `/proc/<pid>/status`.
pub open spec fn affinity_key() -> Seq<u8> {
    seq![67u8, 112u8, 117u8, 115u8, 95u8, 97u8, 108u8, 108u8, 111u8, 119u8, 101u8, 100u8, 95u8, 108u8, 105u8, 115u8, 116u8, 58u8]
}

/// `line` without one trailing carriage return.
pub open spec fn strip_cr(line: Seq<u8>) -> Seq<u8> {
    if line.len() > 0 && line.last() == 13 {
        line.drop_last()
    } else {
        line
    }
}

/// The second `:`-separated field of `line`, if it has one.
pub open spec fn second_field(line: Seq<u8>) -> Option<Seq<u8>> {
    let c = first_index_of(line, 58);
    if c < 0 || c >= line.len() {
        None
    } else {
        let rest = line.subrange(c + 1, line.len() as int);
        let e = first_index_of(rest, 58);
        Some(
            if e < 0 || e >= rest.len() {
                rest
            } else {
                rest.subrange(0, e)
            },
        )
    }
}

/// The affinity count a single line gives: for the affinity line, the
/// CPUs its (trimmed) list names, when that is not zero.
#[verifier::opaque]
pub open spec fn line_affinity(line: Seq<u8>) -> Option<nat> {
    if affinity_key().len() <= line.len() && line.subrange(0, affinity_key().len() as int)
        == affinity_key() {
        match second_field(line) {
            Some(f) => {
                let c = saturated(cpu_list_total(trim(f)) as int);
                if c > 0 {
                    Some(c as nat)
                } else {
                    None
                }
            },
            None => None,
        }
    } else {
        None
    }
}

/// The affinity count of the first line (lines end at `\n`, a `\r`
/// before it dropped) that gives one.
#[verifier::opaque]
pub open spec fn status_affinity(s: Seq<u8>) -> Option<nat>
    decreases s.len(),
{
    let i = first_index_of(s, 10);
    if i < 0 || i >= s.len() {
        line_affinity(strip_cr(s))
    } else {
        match line_affinity(strip_cr(s.subrange(0, i))) {
            Some(c) => Some(c),
            None => status_affinity(s.subrange(i + 1, s.len() as int)),
        }
    }
}

proof fn lemma_status_unfold(rest: Seq<u8>, i: int)
    requires
        0 <= i <= rest.len(),
        first_index_of(rest, 10) == (if i < rest.len() {
            i
        } else {
            -1
        }),
    ensures
        status_affinity(rest) == (if i < rest.len() {
            match line_affinity(strip_cr(rest.subrange(0, i))) {
                Some(c) => Some(c),
                None => status_affinity(rest.subrange(i + 1, rest.len() as int)),
            }
        } else {
            line_affinity(strip_cr(rest))
        }),
{
    reveal(status_affinity);
}

/// First index of `c` in `b[lo..hi]` (as an absolute index), or `hi`.
fn find_byte(b: &[u8], lo: usize, hi: usize, c: u8) -> (r: usize)
    requires
        lo <= hi <= b@.len(),
    ensures
        lo <= r <= hi,
        first_index_of(b@.subrange(lo as int, hi as int), c) == (if r < hi {
            r - lo
        } else {
            -1
        }),
{
    let mut i = lo;
    while i < hi && b[i] != c
        invariant
            lo <= i <= hi <= b@.len(),
            forall|j: int| lo <= j < i ==> b@[j] != c,
        decreases hi - i,
    {
        i = i + 1;
    }
    proof {
        let s = b@.subrange(lo as int, hi as int);
        assert forall|j: int| 0 <= j < i - lo implies s[j] != c by {
            assert(s[j] == b@[lo + j]);
        }
        lemma_first_index(s, c, i - lo);
    }
    i
}

/// The affinity count line `b[lo..hi]` gives.
fn line_affinity_count(b: &[u8], key: &Vec<u8>, lo: usize, hi: usize) -> (r: Option<usize>)
    requires
        lo <= hi <= b@.len(),
        key@ == affinity_key(),
    ensures
        r == (match line_affinity(b@.subrange(lo as int, hi as int)) {
            Some(c) => Some(c as usize),
            None => None,
        }),
{
    proof {
        reveal(line_affinity);
    }
    let ghost line = b@.subrange(lo as int, hi as int);
    let n = key.len();
    if hi - lo < n {
        return None;
    }
    let mut k: usize = 0;
    while k < n
        invariant
            0 <= k <= n,
            n == key@.len(),
            lo + n <= hi <= b@.len(),
            key@ == affinity_key(),
            line == b@.subrange(lo as int, hi as int),
            forall|j: int| 0 <= j < k ==> b@[lo + j] == key@[j],
        decreases n - k,
    {
        if b[lo + k] != key[k] {
            assert(line.subrange(0, n as int)[k as int] != affinity_key()[k as int]);
            assert(line.subrange(0, affinity_key().len() as int) != affinity_key());
            assert(line_affinity(line) is None) by {
                reveal(line_affinity);
            }
            return None;
        }
        k = k + 1;
    }
    assert(line.subrange(0, n as int) =~= affinity_key());
    let colon = find_byte(b, lo, hi, 58u8);
    if colon == hi {
        return None;
    }
    let end = find_byte(b, colon + 1, hi, 58u8);
    proof {
        assert(line.subrange(colon - lo + 1, line.len() as int) =~= b@.subrange(
            colon + 1,
            hi as int,
        ));
        assert(b@.subrange(colon + 1, hi as int).subrange(0, end - (colon + 1)) =~= b@.subrange(
            colon + 1,
            end as int,
        ));
        assert(b@.subrange(colon + 1, hi as int) =~= b@.subrange(colon + 1, end as int) || end
            < hi);
    }
    let (a, z) = trim_bounds(b, colon + 1, end);
    let count = count_cpu_list(b, a, z);
    if count > 0 {
        Some(count)
    } else {
        None
    }
}

/// The CPU count of the affinity line (`Cpus_allowed_list:`) of a process
/// status text, as `/proc/self/status` holds it: the first such line whose
/// list names at least one CPU.
pub fn affinity_from_status(status: &str) -> (r: Option<usize>)
    ensures
        r == (match status_affinity(status.spec_bytes()) {
            Some(c) => Some(c as usize),
            None => None,
        }),
{
    let key: Vec<u8> = vec![67u8, 112u8, 117u8, 115u8, 95u8, 97u8, 108u8, 108u8, 111u8, 119u8, 101u8, 100u8, 95u8, 108u8, 105u8, 115u8, 116u8, 58u8];
    assert(key@ =~= affinity_key());
    let b = status.as_bytes();
    let n = b.len();
    let mut start: usize = 0;
    assert(b@.subrange(0, n as int) =~= b@);
    while start < n
        invariant
            start <= n == b@.len(),
            b@ == status.spec_bytes(),
            key@ == affinity_key(),
            status_affinity(b@.subrange(start as int, n as int)) == status_affinity(b@),
        decreases n - start,
    {
        let nl = find_byte(b, start, n, 10u8);
        let ghost rest = b@.subrange(start as int, n as int);
        let line_end = if nl > start && b[nl - 1] == 13u8 {
            nl - 1
        } else {
            nl
        };
        let ghost line = b@.subrange(start as int, nl as int);
        proof {
            lemma_status_unfold(rest, nl - start);
            if nl < n {
                assert(rest.subrange(0, nl - start) =~= line);
                assert(rest.subrange(nl - start + 1, rest.len() as int) =~= b@.subrange(
                    nl + 1,
                    n as int,
                ));
            } else {
                assert(rest =~= line);
            }
            assert(strip_cr(line) =~= b@.subrange(start as int, line_end as int));
        }
        let here = line_affinity_count(b, &key, start, line_end);
        if here.is_some() {
            return here;
        }
        if nl == n {
            return None;
        }
        start = nl + 1;
    }
    proof {
        let e = b@.subrange(start as int, n as int);
        assert(e.len() == 0);
        assert(strip_cr(e) =~= e);
        reveal(line_affinity);
        reveal(status_affinity);
        assert(line_affinity(e) is None);
    }
    None
}

} // verus!

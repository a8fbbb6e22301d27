//! Dotted numeric version tags and their ordering.
use vstd::prelude::*;

verus! {

pub open spec fn is_digit(c: char) -> bool {
    '0' <= c && c <= '9'
}

/// Decimal value of a sequence of digit characters.
pub open spec fn digits_value(s: Seq<char>) -> nat
    decreases s.len(),
{
    if s.len() == 0 {
        0
    } else {
        digits_value(s.drop_last()) * 10 + (s.last() as nat - '0' as nat) as nat
    }
}

/// The digits of a component: an optional leading `+` is dropped.
pub open spec fn component_digits(s: Seq<char>) -> Seq<char> {
    if s.len() > 0 && s[0] == '+' {
        s.drop_first()
    } else {
        s
    }
}

/// A component read as an unsigned 64-bit decimal number: at least one digit,
/// nothing but digits after an optional `+`, and a value that fits.
pub open spec fn component_value(s: Seq<char>) -> Option<u64> {
    let d = component_digits(s);
    if d.len() > 0 && (forall|i: int| 0 <= i < d.len() ==> is_digit(#[trigger] d[i]))
        && digits_value(d) <= u64::MAX {
        Some(digits_value(d) as u64)
    } else {
        None
    }
}

/// Index of the last `.` in `s`, or -1 when there is none.
pub open spec fn last_dot(s: Seq<char>) -> int
    decreases s.len(),
{
    if s.len() == 0 {
        -1
    } else if s.last() == '.' {
        s.len() - 1
    } else {
        last_dot(s.drop_last())
    }
}

/// The numbers of a version tag: it is split at each `.`, and the components
/// that do not read as a number are left out.
pub open spec fn version_parts(s: Seq<char>) -> Seq<u64>
    decreases s.len(),
{
    let k = last_dot(s);
    let head = if 0 <= k < s.len() {
        version_parts(s.subrange(0, k))
    } else {
        Seq::<u64>::empty()
    };
    match component_value(s.subrange(k + 1, s.len() as int)) {
        Some(v) => head.push(v),
        None => head,
    }
}

/// Lexicographic order on number sequences: `a` is strictly greater than `b`.
pub open spec fn lex_greater(a: Seq<u64>, b: Seq<u64>) -> bool
    decreases a.len(),
{
    if a.len() == 0 {
        false
    } else if b.len() == 0 {
        true
    } else if a[0] != b[0] {
        a[0] > b[0]
    } else {
        lex_greater(a.drop_first(), b.drop_first())
    }
}

proof fn lemma_last_dot_bounds(s: Seq<char>)
    ensures
        -1 <= last_dot(s) < s.len(),
        last_dot(s) >= 0 ==> s[last_dot(s)] == '.',
        forall|i: int| last_dot(s) < i < s.len() ==> s[i] != '.',
    decreases s.len(),
{
    if s.len() > 0 && s.last() != '.' {
        assert(forall|i: int| 0 <= i < s.len() - 1 ==> s.drop_last()[i] == s[i]);
        lemma_last_dot_bounds(s.drop_last());
    }
}

proof fn lemma_last_dot_of_segment(s: Seq<char>, start: int)
    requires
        0 <= start <= s.len(),
        start == 0 || s[start - 1] == '.',
        forall|i: int| start <= i < s.len() ==> s[i] != '.',
    ensures
        last_dot(s) == start - 1,
    decreases s.len(),
{
    if s.len() > start {
        assert(s.drop_last().len() == s.len() - 1);
        lemma_last_dot_of_segment(s.drop_last(), start);
    } else if s.len() > 0 {
        assert(s.last() == '.');
    }
}

proof fn lemma_digits_value_grows(s: Seq<char>, j: int)
    requires
        0 <= j <= s.len(),
        forall|i: int| 0 <= i < s.len() ==> is_digit(#[trigger] s[i]),
    ensures
        digits_value(s.subrange(0, j)) <= digits_value(s),
    decreases s.len(),
{
    if j < s.len() {
        assert(s.drop_last() =~= s.subrange(0, s.len() - 1));
        if j < s.len() - 1 {
            assert(s.drop_last().subrange(0, j) =~= s.subrange(0, j));
        } else {
            assert(s.drop_last() =~= s.subrange(0, j));
        }
        lemma_digits_value_grows(s.drop_last(), j);
    } else {
        assert(s.subrange(0, j) =~= s);
    }
}

/// Reads the characters `from..to` of `s` as one version component.
fn parse_component(s: &str, from: usize, to: usize) -> (r: Option<u64>)
    requires
        from <= to <= s@.len(),
    ensures
        r == component_value(s@.subrange(from as int, to as int)),
{
    let ghost seg = s@.subrange(from as int, to as int);
    let mut i = from;
    if i < to && s.get_char(i) == '+' {
        i = i + 1;
        assert(seg[0] == '+');
        assert(seg.drop_first() =~= s@.subrange(i as int, to as int));
    } else {
        assert(seg.len() > 0 ==> seg[0] != '+');
        assert(seg =~= s@.subrange(i as int, to as int));
    }
    let ghost d = component_digits(seg);
    assert(d =~= s@.subrange(i as int, to as int));
    if i == to {
        return None;
    }
    let mut val: u64 = 0;
    let mut j = i;
    while j < to
        invariant
            i <= j <= to <= s@.len(),
            i < to,
            d == component_digits(s@.subrange(from as int, to as int)),
            d =~= s@.subrange(i as int, to as int),
            forall|k: int| 0 <= k < j - i ==> is_digit(#[trigger] d[k]),
            val as nat == digits_value(d.subrange(0, j - i)),
        decreases to - j,
    {
        let c = s.get_char(j);
        if !('0' <= c && c <= '9') {
            assert(!is_digit(d[j - i]));
            assert(!(forall|k: int| 0 <= k < d.len() ==> is_digit(#[trigger] d[k])));
            return None;
        }
        let dv = (c as u32 - '0' as u32) as u64;
        assert(d.subrange(0, j - i + 1).drop_last() =~= d.subrange(0, j - i));
        assert(d.subrange(0, j - i + 1).last() == c);
        assert(digits_value(d.subrange(0, j - i + 1)) == val * 10 + dv);
        if val > (u64::MAX - dv) / 10 {
            assert(val * 10 + dv > u64::MAX) by (nonlinear_arith)
                requires
                    val > (u64::MAX - dv) / 10,
                    dv <= 9,
            ;
            proof {
                if forall|k: int| 0 <= k < d.len() ==> is_digit(#[trigger] d[k]) {
                    lemma_digits_value_grows(d, j - i + 1);
                }
            }
            return None;
        }
        assert(val * 10 + dv <= u64::MAX) by (nonlinear_arith)
            requires
                val <= (u64::MAX - dv) / 10,
                dv <= 9,
        ;
        val = val * 10 + dv;
        j = j + 1;
    }
    assert(d.subrange(0, j - i) =~= d);
    Some(val)
}

/// The numbers of a version tag, in order.
pub fn parse_version(s: &str) -> (r: Vec<u64>)
    ensures
        r@ == version_parts(s@),
{
    let n = s.unicode_len();
    let mut out: Vec<u64> = Vec::new();
    let mut start: usize = 0;
    let mut i: usize = 0;
    while i < n
        invariant
            n == s@.len(),
            start <= i <= n,
            start == 0 || s@[start - 1] == '.',
            forall|k: int| start <= k < i ==> s@[k] != '.',
            out@ == (if start == 0 {
                Seq::<u64>::empty()
            } else {
                version_parts(s@.subrange(0, start - 1))
            }),
        decreases n - i,
    {
        if s.get_char(i) == '.' {
            let ghost pre = s@.subrange(0, i as int);
            proof {
                lemma_last_dot_of_segment(pre, start as int);
                assert(pre.subrange(start as int, i as int) =~= s@.subrange(start as int, i as int));
                if start > 0 {
                    assert(pre.subrange(0, start - 1) =~= s@.subrange(0, start - 1));
                }
            }
            match parse_component(s, start, i) {
                Some(v) => out.push(v),
                None => {},
            }
            start = i + 1;
        }
        i = i + 1;
    }
    proof {
        lemma_last_dot_of_segment(s@, start as int);
    }
    match parse_component(s, start, n) {
        Some(v) => out.push(v),
        None => {},
    }
    out
}

/// Lexicographic comparison of two number sequences: `a` strictly greater.
fn seq_greater(a: &Vec<u64>, b: &Vec<u64>) -> (r: bool)
    ensures
        r == lex_greater(a@, b@),
{
    let mut i: usize = 0;
    assert(a@.skip(0) =~= a@);
    assert(b@.skip(0) =~= b@);
    while i < a.len() && i < b.len()
        invariant
            i <= a@.len(),
            i <= b@.len(),
            lex_greater(a@, b@) == lex_greater(a@.skip(i as int), b@.skip(i as int)),
        decreases a@.len() - i,
    {
        if a[i] != b[i] {
            return a[i] > b[i];
        }
        assert(a@.skip(i as int).drop_first() =~= a@.skip(i + 1));
        assert(b@.skip(i as int).drop_first() =~= b@.skip(i + 1));
        i = i + 1;
    }
    i < a.len()
}

/// Whether the version tag `latest` is strictly newer than `current`: its
/// numbers, compared one by one from the left, are greater, where a sequence
/// that is a proper prefix of the other is the smaller.
pub fn is_newer(latest: &str, current: &str) -> (r: bool)
    ensures
        r == lex_greater(version_parts(latest@), version_parts(current@)),
{
    let a = parse_version(latest);
    let b = parse_version(current);
    seq_greater(&a, &b)
}

} // verus!

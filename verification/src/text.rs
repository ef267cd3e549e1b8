//! Character-level helpers shared by the directive grammar and the path
//! indices: whitespace and digit classification, decimal runs, and
//! prefix tests over character sequences.
use vstd::prelude::*;

verus! {

/// Whitespace as the directive grammar understands it (the ASCII space
/// characters).
pub open spec fn space(c: char) -> bool {
    c == ' ' || c == '\t' || c == '\n' || c == '\r' || c == '\x0b' || c == '\x0c'
}

/// Decimal digit.
pub open spec fn digit(c: char) -> bool {
    48 <= c as int && c as int <= 57
}

/// Numeric value of a decimal digit.
pub open spec fn digit_val(c: char) -> nat {
    (c as int - 48) as nat
}

/// First position at or after `i` that does not hold whitespace.
pub open spec fn skip_ws(s: Seq<char>, i: int) -> int
    decreases s.len() - i,
{
    if 0 <= i < s.len() && space(s[i]) {
        skip_ws(s, i + 1)
    } else {
        i
    }
}

/// First position at or after `i` that does not hold a digit.
pub open spec fn digit_end(s: Seq<char>, i: int) -> int
    decreases s.len() - i,
{
    if 0 <= i < s.len() && digit(s[i]) {
        digit_end(s, i + 1)
    } else {
        i
    }
}

/// Value of a sequence of decimal digits, most significant first.
pub open spec fn digits_val(s: Seq<char>) -> nat
    decreases s.len(),
{
    if s.len() == 0 {
        0
    } else {
        digits_val(s.drop_last()) * 10 + digit_val(s.last())
    }
}

/// First position at or after `i` holding the character `c`.
pub open spec fn find_from(s: Seq<char>, i: int, c: char) -> Option<int>
    decreases s.len() - i,
{
    if i < 0 || i >= s.len() {
        None
    } else if s[i] == c {
        Some(i)
    } else {
        find_from(s, i + 1, c)
    }
}

/// The view of a list of strings: each as its character sequence.
pub open spec fn path_views(paths: Seq<String>) -> Seq<Seq<char>> {
    paths.map(|i: int, s: String| s@)
}

/// The view of a list of string slices: each as its character sequence.
pub open spec fn strs_views(strs: Seq<&str>) -> Seq<Seq<char>> {
    strs.map(|i: int, s: &str| s@)
}

/// `p` stands at the front of `s`.
pub open spec fn is_prefix(p: Seq<char>, s: Seq<char>) -> bool {
    p.len() <= s.len() && s.subrange(0, p.len() as int) == p
}

pub proof fn lemma_skip_ws_bounds(s: Seq<char>, i: int)
    requires
        0 <= i <= s.len(),
    ensures
        i <= skip_ws(s, i) <= s.len(),
        forall|j: int| i <= j < skip_ws(s, i) ==> space(s[j]),
        skip_ws(s, i) < s.len() ==> !space(s[skip_ws(s, i)]),
    decreases s.len() - i,
{
    if i < s.len() && space(s[i]) {
        lemma_skip_ws_bounds(s, i + 1);
    }
}

pub proof fn lemma_digit_end_bounds(s: Seq<char>, i: int)
    requires
        0 <= i <= s.len(),
    ensures
        i <= digit_end(s, i) <= s.len(),
        forall|j: int| i <= j < digit_end(s, i) ==> digit(s[j]),
        digit_end(s, i) < s.len() ==> !digit(s[digit_end(s, i)]),
    decreases s.len() - i,
{
    if i < s.len() && digit(s[i]) {
        lemma_digit_end_bounds(s, i + 1);
    }
}

/// Whitespace test, in executable form.
pub fn is_space(c: char) -> (r: bool)
    ensures
        r == space(c),
{
    c == ' ' || c == '\t' || c == '\n' || c == '\r' || c == '\x0b' || c == '\x0c'
}

/// Digit test, in executable form.
pub fn is_digit(c: char) -> (r: bool)
    ensures
        r == digit(c),
{
    let v = c as u32;
    48 <= v && v <= 57
}

/// Scans `s` from `from` to the end of the whitespace run there.
pub fn ws_end(s: &str, from: usize, n: usize) -> (r: usize)
    requires
        from <= n,
        n == s@.len(),
    ensures
        r == skip_ws(s@, from as int),
        from <= r <= n,
{
    let mut i = from;
    loop
        invariant
            from <= i <= n,
            n == s@.len(),
            skip_ws(s@, from as int) == skip_ws(s@, i as int),
        decreases n - i,
    {
        if i == n {
            return i;
        }
        let c = s.get_char(i);
        if !is_space(c) {
            return i;
        }
        i = i + 1;
    }
}

/// Scans `s` from `from` to the end of the digit run there.
pub fn digits_end(s: &str, from: usize, n: usize) -> (r: usize)
    requires
        from <= n,
        n == s@.len(),
    ensures
        r == digit_end(s@, from as int),
        from <= r <= n,
{
    let mut i = from;
    loop
        invariant
            from <= i <= n,
            n == s@.len(),
            digit_end(s@, from as int) == digit_end(s@, i as int),
        decreases n - i,
    {
        if i == n {
            return i;
        }
        let c = s.get_char(i);
        if !is_digit(c) {
            return i;
        }
        i = i + 1;
    }
}

/// A decimal value clipped to what a `u32` can hold.
pub open spec fn sat32(n: nat) -> nat {
    if n > u32::MAX {
        u32::MAX as nat
    } else {
        n
    }
}

proof fn lemma_digits_val_step(s: Seq<char>, from: int, i: int)
    requires
        0 <= from <= i < s.len(),
    ensures
        digits_val(s.subrange(from, i + 1)) == digits_val(s.subrange(from, i)) * 10 + digit_val(
            s[i],
        ),
{
    let t = s.subrange(from, i + 1);
    assert(t.drop_last() =~= s.subrange(from, i));
    assert(t.last() == s[i]);
}

/// Reads the digit run `s[from..to]` as a decimal number, clipped to `u32`.
pub fn parse_u32_clipped(s: &str, from: usize, to: usize) -> (r: u32)
    requires
        from <= to <= s@.len(),
        forall|j: int| from <= j < to ==> digit(s@[j]),
    ensures
        r as nat == sat32(digits_val(s@.subrange(from as int, to as int))),
{
    let mut v: u64 = 0;
    let mut i = from;
    proof {
        assert(s@.subrange(from as int, from as int) =~= Seq::<char>::empty());
    }
    while i < to
        invariant
            from <= i <= to <= s@.len(),
            forall|j: int| from <= j < to ==> digit(s@[j]),
            v as nat == sat32(digits_val(s@.subrange(from as int, i as int))),
            v <= u32::MAX,
        decreases to - i,
    {
        let c = s.get_char(i);
        let d: u64 = (c as u32 as u64) - 48;
        let ghost prev = digits_val(s@.subrange(from as int, i as int));
        proof {
            lemma_digits_val_step(s@, from as int, i as int);
        }
        let next: u64 = v * 10 + d;
        if next > 0xffff_ffff {
            proof {
                if prev * 10 + digit_val(s@[i as int]) <= u32::MAX {
                    assert(prev == v as nat);
                    assert(false);
                }
            }
            v = 0xffff_ffff;
        } else {
            proof {
                if v < u32::MAX {
                    assert(prev == v as nat);
                } else {
                    assert(v == u32::MAX);
                    assert(prev >= u32::MAX);
                    assert(prev * 10 + digit_val(s@[i as int]) >= prev) by (nonlinear_arith)
                        requires prev >= 0;
                    assert(next as nat == v as nat * 10 + digit_val(s@[i as int]));
                    assert(false);
                }
            }
            v = next;
        }
        proof {
            if prev > u32::MAX {
                assert(prev * 10 + digit_val(s@[i as int]) > u32::MAX) by (nonlinear_arith)
                    requires prev > u32::MAX;
            }
        }
        i = i + 1;
    }
    v as u32
}

/// Whether `p` stands at the front of `s`, checked character by character.
pub fn str_has_prefix(s: &str, p: &str) -> (r: bool)
    ensures
        r == is_prefix(p@, s@),
{
    let n = s.unicode_len();
    let m = p.unicode_len();
    if m > n {
        return false;
    }
    let mut i: usize = 0;
    while i < m
        invariant
            0 <= i <= m <= n,
            n == s@.len(),
            m == p@.len(),
            forall|j: int| 0 <= j < i ==> s@[j] == p@[j],
        decreases m - i,
    {
        if s.get_char(i) != p.get_char(i) {
            assert(!is_prefix(p@, s@)) by {
                if is_prefix(p@, s@) {
                    assert(s@.subrange(0, p@.len() as int)[i as int] == p@[i as int]);
                }
            }
            return false;
        }
        i = i + 1;
    }
    assert(s@.subrange(0, p@.len() as int) =~= p@);
    true
}

/// Position after the last character that is not whitespace.
pub open spec fn trim_end_idx(s: Seq<char>) -> int
    decreases s.len(),
{
    if s.len() > 0 && space(s.last()) {
        trim_end_idx(s.drop_last())
    } else {
        s.len() as int
    }
}

/// `s` with surrounding whitespace removed.
pub open spec fn trimmed(s: Seq<char>) -> Seq<char> {
    let a = skip_ws(s, 0);
    if a == s.len() {
        Seq::empty()
    } else {
        s.subrange(a, trim_end_idx(s))
    }
}

/// [`trim_end_idx`] is the one position bounded by whitespace on the
/// right and by something else on the left.
pub proof fn lemma_trim_end_characterize(s: Seq<char>, e: int)
    requires
        0 <= e <= s.len(),
        forall|j: int| e <= j < s.len() ==> space(s[j]),
        e == 0 || !space(s[e - 1]),
    ensures
        trim_end_idx(s) == e,
    decreases s.len(),
{
    if s.len() > 0 && space(s.last()) {
        assert(e < s.len());
        let d = s.drop_last();
        assert(forall|j: int| e <= j < d.len() ==> space(d[j]));
        lemma_trim_end_characterize(d, e);
    } else {
        if s.len() > 0 && e < s.len() {
            assert(space(s[s.len() - 1]));
        }
    }
}

/// `s` with surrounding whitespace removed, in executable form.
pub fn trim_str(s: &str) -> (r: String)
    ensures
        r@ == trimmed(s@),
{
    let n = s.unicode_len();
    let a = ws_end(s, 0, n);
    if a == n {
        proof {
            lemma_skip_ws_bounds(s@, 0);
        }
        return String::new();
    }
    proof {
        lemma_skip_ws_bounds(s@, 0);
    }
    let mut b = n;
    loop
        invariant
            a < n,
            a as int == skip_ws(s@, 0),
            !space(s@[a as int]),
            a < b <= n,
            n == s@.len(),
            forall|j: int| b <= j < n ==> space(s@[j]),
        decreases b,
    {
        if !is_space(s.get_char(b - 1)) {
            proof {
                lemma_trim_end_characterize(s@, b as int);
            }
            return s.substring_char(a, b).to_owned();
        }
        proof {
            assert(b - 1 > a) by {
                if b - 1 == a {
                    assert(space(s@[a as int]));
                }
            }
        }
        b = b - 1;
    }
}

/// Character-for-character equality of two string slices.
pub fn str_eq(a: &str, b: &str) -> (r: bool)
    ensures
        r == (a@ == b@),
{
    let n = a.unicode_len();
    let m = b.unicode_len();
    if n != m {
        return false;
    }
    let r = str_has_prefix(a, b);
    proof {
        if a@ == b@ {
            assert(a@.subrange(0, b@.len() as int) =~= b@);
        }
        if is_prefix(b@, a@) {
            assert(a@.subrange(0, b@.len() as int) =~= a@);
        }
    }
    r
}

} // verus!

//! The directive parser: recognizes the line markers a preprocessor
//! leaves in its output (`# <num> "<file>" <flags...>`) and decodes them.
//!
//! A line matches only if it begins with `#`, optional whitespace, a
//! decimal line number, optional whitespace and a double-quoted file
//! path, followed by whitespace-separated decimal flag values. Flag `1`
//! opens an included file, `2` closes one, `3` marks a system header,
//! `4` marks implicit `extern "C"`; other values are ignored. Any line
//! of another shape is plain content.
use vstd::prelude::*;

use crate::text::{
    digit, digit_end, digits_end, digits_val, find_from, is_digit, lemma_digit_end_bounds,
    lemma_skip_ws_bounds, parse_u32_clipped, sat32, skip_ws, ws_end,
};

verus! {

/// The state transition a directive carries: none, entering an included
/// file, or returning from one.
#[derive(Clone, Copy, Debug, PartialEq, Eq, Structural)]
pub enum FlagStatus {
    NotSet,
    Open,
    Close,
}

/// The decoded flag set of one directive.
#[derive(Clone, Copy, Debug, PartialEq, Eq, Structural)]
pub struct IncludeState {
    pub status: FlagStatus,
    pub system_header: bool,
    pub extern_c: bool,
}

/// One decoded line-marker directive.
#[derive(Clone, Debug, PartialEq, Eq)]
pub struct IncludeDirective {
    pub linenum: u32,
    pub filename: String,
    pub state: IncludeState,
}

/// The mathematical image of a directive: the line number as written,
/// the quoted path, and the flag values in order.
pub ghost struct SpecDirective {
    pub line_number: nat,
    pub file: Seq<char>,
    pub flags: Seq<nat>,
}

/// The transition carried by a flag list: the last `1` or `2` wins.
pub open spec fn status_of(flags: Seq<nat>) -> FlagStatus
    decreases flags.len(),
{
    if flags.len() == 0 {
        FlagStatus::NotSet
    } else if flags.last() == 1 {
        FlagStatus::Open
    } else if flags.last() == 2 {
        FlagStatus::Close
    } else {
        status_of(flags.drop_last())
    }
}

/// Decodes the flag region of a directive line, from position `i` on:
/// whitespace-separated decimal runs until the end of the line. Any
/// other character there makes the whole line plain content.
pub open spec fn parse_flags(s: Seq<char>, i: int) -> Option<Seq<nat>>
    decreases s.len() - i,
    when 0 <= i <= s.len()
    via parse_flags_dec
{
    let j = skip_ws(s, i);
    if j >= s.len() {
        Some(Seq::empty())
    } else if !digit(s[j]) {
        None
    } else {
        let k = digit_end(s, j);
        match parse_flags(s, k) {
            None => None,
            Some(rest) => Some(seq![digits_val(s.subrange(j, k))] + rest),
        }
    }
}

#[via_fn]
proof fn parse_flags_dec(s: Seq<char>, i: int) {
    lemma_skip_ws_bounds(s, i);
    let j = skip_ws(s, i);
    if j < s.len() && digit(s[j]) {
        lemma_digit_end_bounds(s, j);
        assert(digit_end(s, j) == digit_end(s, j + 1));
        lemma_digit_end_bounds(s, j + 1);
    }
}

/// Decodes one line. `None` means the line is plain content.
pub open spec fn parse_directive(s: Seq<char>) -> Option<SpecDirective> {
    if s.len() == 0 || s[0] != '#' {
        None
    } else {
        let i1 = skip_ws(s, 1);
        if i1 >= s.len() || !digit(s[i1]) {
            None
        } else {
            let i2 = digit_end(s, i1);
            let i3 = skip_ws(s, i2);
            if i3 >= s.len() || s[i3] != '"' {
                None
            } else {
                match find_from(s, i3 + 1, '"') {
                    None => None,
                    Some(i4) => match parse_flags(s, i4 + 1) {
                        None => None,
                        Some(flags) => Some(
                            SpecDirective {
                                line_number: digits_val(s.subrange(i1, i2)),
                                file: s.subrange(i3 + 1, i4),
                                flags,
                            },
                        ),
                    },
                }
            }
        }
    }
}

impl IncludeState {
    /// A directive that carries no flags at all.
    pub fn new() -> (r: IncludeState)
        ensures
            r.status == FlagStatus::NotSet,
            !r.system_header,
            !r.extern_c,
    {
        IncludeState { status: FlagStatus::NotSet, system_header: false, extern_c: false }
    }

    /// A directive with no transition is a pure line-correction marker
    /// and participates in no state change.
    pub fn ignorable(&self) -> (r: bool)
        ensures
            r == (self.status is NotSet),
    {
        match self.status {
            FlagStatus::NotSet => true,
            _ => false,
        }
    }
}

proof fn lemma_status_of_push(flags: Seq<nat>, v: nat)
    ensures
        status_of(flags.push(v)) == (if v == 1 {
            FlagStatus::Open
        } else if v == 2 {
            FlagStatus::Close
        } else {
            status_of(flags)
        }),
{
    let p = flags.push(v);
    assert(p.last() == v);
    assert(p.drop_last() =~= flags);
}

proof fn lemma_contains_push(s: Seq<nat>, v: nat, w: nat)
    ensures
        s.push(v).contains(w) <==> (s.contains(w) || v == w),
{
    let p = s.push(v);
    if s.contains(w) {
        let i = choose|i: int| 0 <= i < s.len() && s[i] == w;
        assert(p[i] == w);
    }
    if v == w {
        assert(p[s.len() as int] == w);
    }
    if p.contains(w) {
        let i = choose|i: int| 0 <= i < p.len() && p[i] == w;
        if i < s.len() {
            assert(s[i] == w);
        }
    }
}

/// First position at or after `from` holding `c`, matching
/// [`find_from`].
fn find_char_from(s: &str, from: usize, n: usize, c: char) -> (r: Option<usize>)
    requires
        from <= n,
        n == s@.len(),
    ensures
        match r {
            Some(j) => find_from(s@, from as int, c) == Some(j as int) && from <= j < n,
            None => find_from(s@, from as int, c) is None,
        },
{
    let mut i = from;
    loop
        invariant
            from <= i <= n,
            n == s@.len(),
            find_from(s@, from as int, c) == find_from(s@, i as int, c),
        decreases n - i,
    {
        if i == n {
            return None;
        }
        if s.get_char(i) == c {
            return Some(i);
        }
        i = i + 1;
    }
}

/// Tries to decode one line of preprocessor output as a line-marker
/// directive. The line number is clipped to what a `u32` can hold;
/// everything the engine reads of it (whether it is zero) is unaffected.
pub fn try_parse(line: &str) -> (r: Option<IncludeDirective>)
    ensures
        match r {
            None => parse_directive(line@) is None,
            Some(d) => {
                &&& parse_directive(line@) matches Some(m)
                &&& d.linenum as nat == sat32(m.line_number)
                &&& d.filename@ == m.file
                &&& d.state.status == status_of(m.flags)
                &&& d.state.system_header == m.flags.contains(3)
                &&& d.state.extern_c == m.flags.contains(4)
            },
        },
{
    let n = line.unicode_len();
    if n == 0 {
        return None;
    }
    if line.get_char(0) != '#' {
        return None;
    }
    let i1 = ws_end(line, 1, n);
    if i1 == n {
        return None;
    }
    if !is_digit(line.get_char(i1)) {
        return None;
    }
    let i2 = digits_end(line, i1, n);
    proof {
        lemma_digit_end_bounds(line@, i1 as int);
    }
    let linenum = parse_u32_clipped(line, i1, i2);
    let i3 = ws_end(line, i2, n);
    if i3 == n {
        return None;
    }
    if line.get_char(i3) != '"' {
        return None;
    }
    let i4 = match find_char_from(line, i3 + 1, n, '"') {
        None => {
            return None;
        },
        Some(j) => j,
    };
    let filename = line.substring_char(i3 + 1, i4).to_owned();
    let state = match parse_flags_exec(line, i4 + 1, n) {
        None => {
            return None;
        },
        Some(st) => st,
    };
    Some(IncludeDirective { linenum, filename, state })
}

/// Decodes the flag region of a directive line into the state it
/// carries, matching [`parse_flags`].
fn parse_flags_exec(line: &str, from: usize, n: usize) -> (r: Option<IncludeState>)
    requires
        from <= n,
        n == line@.len(),
    ensures
        match r {
            None => parse_flags(line@, from as int) is None,
            Some(st) => {
                &&& parse_flags(line@, from as int) matches Some(fl)
                &&& st.status == status_of(fl)
                &&& st.system_header == fl.contains(3)
                &&& st.extern_c == fl.contains(4)
            },
        },
{
    let mut status = FlagStatus::NotSet;
    let mut sys = false;
    let mut extc = false;
    let ghost mut front: Seq<nat> = Seq::empty();
    let mut i: usize = from;
    loop
        invariant
            from <= i <= n,
            n == line@.len(),
            parse_flags(line@, from as int) == (match parse_flags(line@, i as int) {
                None => None::<Seq<nat>>,
                Some(rest) => Some(front + rest),
            }),
            status == status_of(front),
            sys == front.contains(3),
            extc == front.contains(4),
        decreases n - i,
    {
        let j = ws_end(line, i, n);
        if j == n {
            proof {
                assert(parse_flags(line@, i as int) == Some(Seq::<nat>::empty()));
                assert(front + Seq::<nat>::empty() =~= front);
            }
            return Some(IncludeState { status, system_header: sys, extern_c: extc });
        }
        if !is_digit(line.get_char(j)) {
            proof {
                assert(parse_flags(line@, i as int) is None);
            }
            return None;
        }
        let k = digits_end(line, j, n);
        proof {
            lemma_digit_end_bounds(line@, j as int);
        }
        let v = parse_u32_clipped(line, j, k);
        let ghost fv = digits_val(line@.subrange(j as int, k as int));
        if v == 1 {
            status = FlagStatus::Open;
        } else if v == 2 {
            status = FlagStatus::Close;
        } else if v == 3 {
            sys = true;
        } else if v == 4 {
            extc = true;
        }
        proof {
            assert(parse_flags(line@, i as int) == (match parse_flags(line@, k as int) {
                None => None::<Seq<nat>>,
                Some(rest) => Some(seq![fv] + rest),
            }));
            match parse_flags(line@, k as int) {
                Some(rest) => {
                    assert(front + (seq![fv] + rest) =~= front.push(fv) + rest);
                },
                None => {},
            }
            lemma_status_of_push(front, fv);
            lemma_contains_push(front, fv, 3);
            lemma_contains_push(front, fv, 4);
            front = front.push(fv);
        }
        i = k;
    }
}

} // verus!

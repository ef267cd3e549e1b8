//! The properties the reconstruction engine guarantees, stated over
//! whole passes of [`crate::process::run_spec`] and proved once for
//! every input.
use vstd::prelude::*;

use crate::include_line::{parse_directive, status_of, SpecDirective};
use crate::inline_paths::covers;
use crate::line_zero::line_zero_skip;
use crate::errors::ErrorSpec;
use crate::process::{
    include_line_of, init_state, run_spec, step_directive, step_line, PState,
};
use crate::text::{digit, space, skip_ws};

verus! {

/// Input containing no directive lines passes through unchanged, line
/// for line, whatever the indices hold and however paths resolve.
pub proof fn lemma_no_directives_identity(
    lines: Seq<Seq<char>>,
    res: Seq<Option<Seq<char>>>,
    search: Seq<Seq<char>>,
    inline: Seq<Seq<char>>,
)
    requires
        forall|i: int| 0 <= i < lines.len() ==> parse_directive(#[trigger] lines[i]) is None,
    ensures
        run_spec(init_state(), lines, res, search, inline) == Ok::<
            (PState, Seq<Seq<char>>),
            ErrorSpec,
        >((init_state(), lines)),
    decreases lines.len(),
{
    if lines.len() == 0 {
        assert(lines =~= Seq::<Seq<char>>::empty());
    } else {
        assert(parse_directive(lines[0]) is None);
        let rest = lines.drop_first();
        assert(forall|i: int|
            0 <= i < rest.len() ==> parse_directive(#[trigger] rest[i]) is None);
        lemma_no_directives_identity(rest, res.drop_first(), search, inline);
        assert(seq![lines[0]] + rest =~= lines);
    }
}

/// The one synthesized line is itself no directive: it carries no
/// decimal line number after its `#`.
pub proof fn lemma_include_line_not_directive(name: Seq<char>)
    ensures
        parse_directive(include_line_of(name)) is None,
{
    let s = include_line_of(name);
    reveal_strlit("#include <");
    reveal_strlit(">");
    assert(s[0] == '#');
    assert(s[1] == 'i');
    assert(!space('i'));
    assert(skip_ws(s, 1) == 1);
    assert(!digit('i'));
}

/// Whatever one step emits is no directive: plain lines were parsed as
/// plain, and the synthesized line never parses as one.
pub proof fn lemma_step_output_plain(
    st: PState,
    line: Seq<char>,
    res: Option<Seq<char>>,
    search: Seq<Seq<char>>,
    inline: Seq<Seq<char>>,
)
    ensures
        match step_line(st, line, res, search, inline) {
            Ok(q) => match q.1 {
                Some(o) => parse_directive(o) is None,
                None => true,
            },
            Err(_) => true,
        },
{
    match parse_directive(line) {
        None => {},
        Some(d) => {
            match step_line(st, line, res, search, inline) {
                Ok(q) => {
                    match q.1 {
                        Some(o) => {
                            match res {
                                Some(path) => {
                                    match crate::system_paths::cleanup_spec(search, path) {
                                        Some(name) => {
                                            lemma_include_line_not_directive(name);
                                            assert(o == include_line_of(name));
                                        },
                                        None => {},
                                    }
                                },
                                None => {},
                            }
                        },
                        None => {},
                    }
                },
                Err(_) => {},
            }
        },
    }
}

/// Every line a whole pass emits is plain content: none parses as a
/// directive.
pub proof fn lemma_outputs_not_directives(
    st: PState,
    lines: Seq<Seq<char>>,
    res: Seq<Option<Seq<char>>>,
    search: Seq<Seq<char>>,
    inline: Seq<Seq<char>>,
)
    ensures
        run_spec(st, lines, res, search, inline) matches Ok(p) ==> forall|i: int|
            0 <= i < p.1.len() ==> parse_directive(#[trigger] p.1[i]) is None,
    decreases lines.len(),
{
    if lines.len() == 0 {
    } else {
        match step_line(st, lines[0], res[0], search, inline) {
            Err(_) => {},
            Ok(q) => {
                lemma_step_output_plain(st, lines[0], res[0], search, inline);
                lemma_outputs_not_directives(
                    q.0,
                    lines.drop_first(),
                    res.drop_first(),
                    search,
                    inline,
                );
            },
        }
    }
}

/// Re-running reconstruction on the output of a pass is a no-op: the
/// output contains no markers any more, so it passes through unchanged.
pub proof fn lemma_reconstruction_idempotent(
    lines: Seq<Seq<char>>,
    res: Seq<Option<Seq<char>>>,
    search: Seq<Seq<char>>,
    inline: Seq<Seq<char>>,
    st: PState,
    out: Seq<Seq<char>>,
    res2: Seq<Option<Seq<char>>>,
    search2: Seq<Seq<char>>,
    inline2: Seq<Seq<char>>,
)
    requires
        run_spec(init_state(), lines, res, search, inline) == Ok::<
            (PState, Seq<Seq<char>>),
            ErrorSpec,
        >((st, out)),
    ensures
        run_spec(init_state(), out, res2, search2, inline2) == Ok::<
            (PState, Seq<Seq<char>>),
            ErrorSpec,
        >((init_state(), out)),
{
    lemma_outputs_not_directives(init_state(), lines, res, search, inline);
    lemma_no_directives_identity(out, res2, search2, inline2);
}

/// An `Enter` nested inside an already-suppressed frame produces no
/// synthesized line of its own, whatever its flags and however its
/// path resolves.
pub proof fn lemma_suppressed_frame_hides_nested(
    st: PState,
    d: SpecDirective,
    res: Option<Seq<char>>,
    search: Seq<Seq<char>>,
    inline: Seq<Seq<char>>,
)
    requires
        st.stack.len() > 0,
        st.stack.last(),
        !line_zero_skip(st.in_line_zero, d.line_number == 0),
        status_of(d.flags) is Open,
    ensures
        step_directive(st, d, res, search, inline) matches Ok(q) ==> q.1 is None,
{
}

/// A path covered by an inline override never produces a synthesized
/// include for its own `Enter`, and the frame pushed for it lets its
/// content through.
pub proof fn lemma_inline_override_stays_inline(
    st: PState,
    d: SpecDirective,
    path: Seq<char>,
    search: Seq<Seq<char>>,
    inline: Seq<Seq<char>>,
)
    requires
        !line_zero_skip(st.in_line_zero, d.line_number == 0),
        status_of(d.flags) is Open,
        covers(inline, path),
    ensures
        step_directive(st, d, Some(path), search, inline) == Ok::<
            (PState, Option<Seq<char>>),
            ErrorSpec,
        >((PState { in_line_zero: st.in_line_zero, stack: st.stack.push(false) }, None)),
{
}

/// An unmatched `Leave` aborts nothing and changes nothing: the step
/// succeeds, emits nothing, and leaves the state as it was.
pub proof fn lemma_unmatched_leave_ignored(
    st: PState,
    d: SpecDirective,
    path: Seq<char>,
    search: Seq<Seq<char>>,
    inline: Seq<Seq<char>>,
)
    requires
        st.stack.len() == 0,
        !line_zero_skip(st.in_line_zero, d.line_number == 0),
        status_of(d.flags) is Close,
    ensures
        step_directive(st, d, Some(path), search, inline) == Ok::<
            (PState, Option<Seq<char>>),
            ErrorSpec,
        >((st, None)),
{
}

/// While the builtin preamble is being dropped, a span whose directives
/// never carry `Leave` except the last, and whose other lines are
/// anything at all, is consumed whole: no output, and the filter ends
/// outside the preamble with the frame stack untouched.
proof fn lemma_inside_preamble_span(
    st: PState,
    lines: Seq<Seq<char>>,
    res: Seq<Option<Seq<char>>>,
    search: Seq<Seq<char>>,
    inline: Seq<Seq<char>>,
)
    requires
        st.in_line_zero,
        lines.len() >= 1,
        forall|i: int|
            0 <= i < lines.len() - 1 ==> (parse_directive(#[trigger] lines[i]) matches Some(d)
                ==> !(status_of(d.flags) is Close)),
        parse_directive(lines.last()) matches Some(d) && status_of(d.flags) is Close,
    ensures
        run_spec(st, lines, res, search, inline) == Ok::<(PState, Seq<Seq<char>>), ErrorSpec>(
            (PState { in_line_zero: false, stack: st.stack }, Seq::empty()),
        ),
    decreases lines.len(),
{
    let rest = lines.drop_first();
    match step_line(st, lines[0], res[0], search, inline) {
        Err(_) => {
            assert(false);
        },
        Ok(q) => {
            assert(q.1 is None);
            if lines.len() == 1 {
                assert(lines[0] == lines.last());
                assert(rest =~= Seq::<Seq<char>>::empty());
                assert(q.0 == (PState { in_line_zero: false, stack: st.stack }));
            } else {
                match parse_directive(lines[0]) {
                    None => {},
                    Some(d0) => {
                        assert(!(status_of(d0.flags) is Close));
                    },
                }
                assert(rest.last() == lines.last());
                assert(forall|i: int|
                    0 <= i < rest.len() - 1 ==> (parse_directive(#[trigger] rest[i]) matches Some(
                        d,
                    ) ==> !(status_of(d.flags) is Close)));
                lemma_inside_preamble_span(q.0, rest, res.drop_first(), search, inline);
            }
            assert(crate::process::opt_line(q.1) + Seq::<Seq<char>>::empty() =~= Seq::<
                Seq<char>,
            >::empty());
        },
    }
}

/// A run of directives with line number zero, closed by one carrying
/// `Leave`, is dropped entirely together with every line between them,
/// and processing resumes afterwards exactly where it stood.
pub proof fn lemma_builtin_preamble_dropped(
    st: PState,
    lines: Seq<Seq<char>>,
    res: Seq<Option<Seq<char>>>,
    search: Seq<Seq<char>>,
    inline: Seq<Seq<char>>,
)
    requires
        !st.in_line_zero,
        lines.len() >= 2,
        parse_directive(lines[0]) matches Some(d) && d.line_number == 0,
        forall|i: int|
            1 <= i < lines.len() - 1 ==> (parse_directive(#[trigger] lines[i]) matches Some(d)
                ==> !(status_of(d.flags) is Close)),
        parse_directive(lines.last()) matches Some(d) && status_of(d.flags) is Close,
    ensures
        run_spec(st, lines, res, search, inline) == Ok::<(PState, Seq<Seq<char>>), ErrorSpec>(
            (st, Seq::empty()),
        ),
{
    let rest = lines.drop_first();
    assert(rest.last() == lines.last());
    assert(forall|i: int|
        0 <= i < rest.len() - 1 ==> (parse_directive(#[trigger] rest[i]) matches Some(d)
            ==> !(status_of(d.flags) is Close)));
    match step_line(st, lines[0], res[0], search, inline) {
        Err(_) => {
            assert(false);
        },
        Ok(q) => {
            assert(q.0.in_line_zero);
            assert(q.0.stack == st.stack);
            assert(q.1 is None);
            lemma_inside_preamble_span(q.0, rest, res.drop_first(), search, inline);
            assert(crate::process::opt_line(q.1) + Seq::<Seq<char>>::empty() =~= Seq::<
                Seq<char>,
            >::empty());
            assert(PState { in_line_zero: false, stack: q.0.stack } == st);
        },
    }
}

} // verus!

//! The reconstruction engine: a stack of include frames fed by parsed
//! directives, deciding line by line whether content passes through, is
//! suppressed, or is replaced by one synthesized `#include` directive.
use vstd::prelude::*;

use crate::errors::{Error, ErrorSpec};
use crate::include_line::{
    parse_directive, status_of, try_parse, FlagStatus, IncludeDirective, SpecDirective,
};
use crate::inline_paths::{covers, InlinePaths};
use crate::line_zero::{line_zero_next, line_zero_skip, LineZeroState};
use crate::paths::resolve_path;
use crate::system_paths::{cleanup_spec, SearchPaths};
use crate::text::{path_views, sat32};

verus! {

/// The persistent state of one reconstruction pass: the preamble filter
/// position and the frame stack. A frame holds `true` when the content
/// of its file is suppressed.
pub ghost struct PState {
    pub in_line_zero: bool,
    pub stack: Seq<bool>,
}

/// A pass starts outside the builtin preamble with no open frames.
pub open spec fn init_state() -> PState {
    PState { in_line_zero: false, stack: Seq::empty() }
}

/// The one line synthesized for a replaceable header.
pub open spec fn include_line_of(name: Seq<char>) -> Seq<char> {
    "#include <"@ + name + ">"@
}

/// What a plain content line produces: itself, unless the preamble
/// filter is active or the top frame is suppressed.
pub open spec fn step_plain(st: PState, line: Seq<char>) -> Option<Seq<char>> {
    if st.in_line_zero {
        None
    } else if st.stack.len() > 0 && st.stack.last() {
        None
    } else {
        Some(line)
    }
}

/// What an `Enter`/`Leave` directive does to the frame stack, given the
/// outcome `res` of resolving its quoted path: an unresolvable path is
/// fatal; an `Enter` classifies the file and pushes a frame, emitting
/// the synthesized include exactly when the file is replaceable and no
/// enclosing frame hides it; a `Leave` pops one frame if any is open.
pub open spec fn undo_spec(
    stack: Seq<bool>,
    system_flag: bool,
    status: FlagStatus,
    res: Option<Seq<char>>,
    filename: Seq<char>,
    search: Seq<Seq<char>>,
    inline: Seq<Seq<char>>,
) -> Result<(Seq<bool>, Option<Seq<char>>), ErrorSpec> {
    match res {
        None => Err(ErrorSpec::PathNotFound { filename }),
        Some(path) => {
            let replaceable = system_flag && !covers(inline, path);
            match status {
                FlagStatus::Open => {
                    let hiding = stack.len() > 0 && stack.last();
                    let stack2 = stack.push(replaceable);
                    if replaceable && !hiding {
                        match cleanup_spec(search, path) {
                            None => Err(ErrorSpec::NotInSearchPaths { path }),
                            Some(name) => Ok((stack2, Some(include_line_of(name)))),
                        }
                    } else {
                        Ok((stack2, None))
                    }
                },
                FlagStatus::Close => {
                    let stack2 = if stack.len() > 0 {
                        stack.drop_last()
                    } else {
                        stack
                    };
                    Ok((stack2, None))
                },
                FlagStatus::NotSet => Ok((stack, None)),
            }
        },
    }
}

/// What one directive does to the whole state: the preamble filter
/// consumes it first; a pure line-correction marker is dropped; the
/// rest goes to the frame stack.
pub open spec fn step_directive(
    st: PState,
    d: SpecDirective,
    res: Option<Seq<char>>,
    search: Seq<Seq<char>>,
    inline: Seq<Seq<char>>,
) -> Result<(PState, Option<Seq<char>>), ErrorSpec> {
    if line_zero_skip(st.in_line_zero, d.line_number == 0) {
        Ok(
            (
                PState {
                    in_line_zero: line_zero_next(
                        st.in_line_zero,
                        d.line_number == 0,
                        status_of(d.flags),
                    ),
                    stack: st.stack,
                },
                None,
            ),
        )
    } else if status_of(d.flags) is NotSet {
        Ok((st, None))
    } else {
        match undo_spec(
            st.stack,
            d.flags.contains(3),
            status_of(d.flags),
            res,
            d.file,
            search,
            inline,
        ) {
            Err(e) => Err(e),
            Ok((stack2, out)) => Ok((PState { in_line_zero: st.in_line_zero, stack: stack2 }, out)),
        }
    }
}

/// What one input line does: a line that decodes as a directive drives
/// the state machine, any other line is content.
pub open spec fn step_line(
    st: PState,
    line: Seq<char>,
    res: Option<Seq<char>>,
    search: Seq<Seq<char>>,
    inline: Seq<Seq<char>>,
) -> Result<(PState, Option<Seq<char>>), ErrorSpec> {
    match parse_directive(line) {
        None => Ok((st, step_plain(st, line))),
        Some(d) => step_directive(st, d, res, search, inline),
    }
}

/// Zero or one lines of output, as a sequence.
pub open spec fn opt_line(o: Option<Seq<char>>) -> Seq<Seq<char>> {
    match o {
        None => Seq::empty(),
        Some(l) => seq![l],
    }
}

/// A whole pass over `lines`, with `res` giving the outcome of each
/// line's path resolution (consulted only where a line needs one).
/// Either the full output sequence, in input order, or the first fatal
/// condition.
pub open spec fn run_spec(
    st: PState,
    lines: Seq<Seq<char>>,
    res: Seq<Option<Seq<char>>>,
    search: Seq<Seq<char>>,
    inline: Seq<Seq<char>>,
) -> Result<(PState, Seq<Seq<char>>), ErrorSpec>
    decreases lines.len(),
{
    if lines.len() == 0 {
        Ok((st, Seq::empty()))
    } else {
        match step_line(st, lines[0], res[0], search, inline) {
            Err(e) => Err(e),
            Ok((st2, out)) => match run_spec(
                st2,
                lines.drop_first(),
                res.drop_first(),
                search,
                inline,
            ) {
                Err(e) => Err(e),
                Ok(rest) => Ok((rest.0, opt_line(out) + rest.1)),
            },
        }
    }
}

/// The view of zero or one output lines.
pub open spec fn opt_view(o: Option<String>) -> Option<Seq<char>> {
    match o {
        None => None,
        Some(s) => Some(s@),
    }
}

/// How one call of [`Processor::process_line`] relates to [`step_line`]
/// under a given resolution outcome.
pub open spec fn step_matches(
    st: PState,
    st2: PState,
    line: Seq<char>,
    res: Option<Seq<char>>,
    search: Seq<Seq<char>>,
    inline: Seq<Seq<char>>,
    r: Result<Option<String>, Error>,
) -> bool {
    match step_line(st, line, res, search, inline) {
        Ok((s2, out)) => r matches Ok(o) && st2 == s2 && opt_view(o) == out,
        Err(e) => r matches Err(e2) && e2@ == e,
    }
}

/// Whether a frame lets the lines of its file through.
struct ShowContent(pub bool);

/// The engine: both indices, the frame stack, and the preamble filter.
pub struct Processor {
    search_paths: SearchPaths,
    inline_paths: InlinePaths,
    include_queue: Vec<ShowContent>,
    line_zero: LineZeroState,
}

impl Processor {
    /// The filter position and frame stack, as the contracts speak of
    /// them.
    pub closed spec fn pstate(&self) -> PState {
        PState {
            in_line_zero: self.line_zero.inside(),
            stack: self.include_queue@.map(|i: int, s: ShowContent| !s.0),
        }
    }

    /// The indexed search directories.
    pub closed spec fn search_view(&self) -> Seq<Seq<char>> {
        self.search_paths@
    }

    /// The indexed inline-override paths.
    pub closed spec fn inline_view(&self) -> Seq<Seq<char>> {
        self.inline_paths@
    }

    /// A fresh engine over the two indices.
    pub fn new(search_paths: SearchPaths, inline_paths: InlinePaths) -> (r: Processor)
        ensures
            r.pstate() == init_state(),
            r.search_view() == search_paths@,
            r.inline_view() == inline_paths@,
    {
        let p = Processor {
            search_paths,
            inline_paths,
            include_queue: Vec::new(),
            line_zero: LineZeroState::new(),
        };
        proof {
            assert(p.pstate().stack =~= Seq::<bool>::empty());
        }
        p
    }

    /// Synthesizes the portable include line for a replaceable header.
    fn system_include_string(&self, filename: &str) -> (r: Result<String, Error>)
        ensures
            r matches Ok(s) ==> {
                &&& cleanup_spec(self.search_view(), filename@) matches Some(name)
                &&& s@ == include_line_of(name)
            },
            r matches Err(e) ==> {
                &&& cleanup_spec(self.search_view(), filename@) is None
                &&& e@ == (ErrorSpec::NotInSearchPaths { path: filename@ })
            },
    {
        match self.search_paths.cleanup_path(filename) {
            Err(e) => Err(e),
            Ok(name) => Ok(String::from_str("#include <").concat(name.as_str()).concat(">")),
        }
    }

    /// Feeds one non-ignorable directive to the frame stack.
    fn try_undo_system_include(&mut self, include_info: IncludeDirective) -> (r: Result<
        Option<String>,
        Error,
    >)
        requires
            !(include_info.state.status is NotSet),
        ensures
            final(self).search_view() == old(self).search_view(),
            final(self).inline_view() == old(self).inline_view(),
            final(self).pstate().in_line_zero == old(self).pstate().in_line_zero,
            undo_related(
                old(self).pstate().stack,
                final(self).pstate().stack,
                include_info.state.system_header,
                include_info.state.status,
                include_info.filename@,
                old(self).search_view(),
                old(self).inline_view(),
                r,
            ),
    {
        let path = match resolve_path(include_info.filename.as_str()) {
            None => {
                let r: Result<Option<String>, Error> = Err(
                    Error::PathNotFound { filename: include_info.filename },
                );
                proof {
                    assert(undo_matches(
                        self.pstate().stack,
                        self.pstate().stack,
                        include_info.state.system_header,
                        include_info.state.status,
                        include_info.filename@,
                        None::<Seq<char>>,
                        self.search_view(),
                        self.inline_view(),
                        r,
                    ));
                }
                return r;
            },
            Some(p) => p,
        };
        let system_header = include_info.state.system_header && !self.inline_paths.should_inline(
            path.as_str(),
        );
        match include_info.state.status {
            FlagStatus::Open => {
                let ql = self.include_queue.len();
                let is_hiding = ql > 0 && !self.include_queue[ql - 1].0;
                proof {
                    if ql > 0 {
                        assert(self.pstate().stack.last() == !self.include_queue@[ql - 1].0);
                    }
                }
                let ret: Option<String> = if system_header && !is_hiding {
                    match self.system_include_string(path.as_str()) {
                        Err(e) => {
                            let r: Result<Option<String>, Error> = Err(e);
                            proof {
                                assert(undo_matches(
                                    self.pstate().stack,
                                    self.pstate().stack,
                                    include_info.state.system_header,
                                    include_info.state.status,
                                    include_info.filename@,
                                    Some(path@),
                                    self.search_view(),
                                    self.inline_view(),
                                    r,
                                ));
                            }
                            return r;
                        },
                        Ok(inc) => Some(inc),
                    }
                } else {
                    None
                };
                let ghost old_stack = self.pstate().stack;
                self.include_queue.push(ShowContent(!system_header));
                let r: Result<Option<String>, Error> = Ok(ret);
                proof {
                    assert(self.pstate().stack =~= old_stack.push(system_header));
                    assert(undo_matches(
                        old_stack,
                        self.pstate().stack,
                        include_info.state.system_header,
                        include_info.state.status,
                        include_info.filename@,
                        Some(path@),
                        self.search_view(),
                        self.inline_view(),
                        r,
                    ));
                }
                r
            },
            FlagStatus::Close => {
                let ghost old_stack = self.pstate().stack;
                if self.include_queue.len() > 0 {
                    self.include_queue.pop();
                    proof {
                        assert(self.pstate().stack =~= old_stack.drop_last());
                    }
                }
                let r: Result<Option<String>, Error> = Ok(None);
                proof {
                    assert(undo_matches(
                        old_stack,
                        self.pstate().stack,
                        include_info.state.system_header,
                        include_info.state.status,
                        include_info.filename@,
                        Some(path@),
                        self.search_view(),
                        self.inline_view(),
                        r,
                    ));
                }
                r
            },
            FlagStatus::NotSet => {
                proof {
                    assert(false);
                }
                Ok(None)
            },
        }
    }

    /// Processes one line of input: at most one line of output, or the
    /// first fatal condition.
    pub fn process_line(&mut self, line: &str) -> (r: Result<Option<String>, Error>)
        ensures
            final(self).search_view() == old(self).search_view(),
            final(self).inline_view() == old(self).inline_view(),
            step_related(
                old(self).pstate(),
                final(self).pstate(),
                line@,
                old(self).search_view(),
                old(self).inline_view(),
                r,
            ),
    {
        match try_parse(line) {
            None => {
                let r: Result<Option<String>, Error> = if self.line_zero.ignore_line() {
                    Ok(None)
                } else {
                    let ql = self.include_queue.len();
                    proof {
                        if ql > 0 {
                            assert(self.pstate().stack.last() == !self.include_queue@[ql - 1].0);
                        }
                    }
                    if ql > 0 && !self.include_queue[ql - 1].0 {
                        Ok(None)
                    } else {
                        Ok(Some(line.to_owned()))
                    }
                };
                proof {
                    assert(step_matches(
                        self.pstate(),
                        self.pstate(),
                        line@,
                        None::<Seq<char>>,
                        self.search_view(),
                        self.inline_view(),
                        r,
                    ));
                }
                r
            },
            Some(include_info) => {
                let ghost st0 = self.pstate();
                let ghost m = parse_directive(line@).unwrap();
                proof {
                    assert(include_info.linenum as nat == sat32(m.line_number));
                    assert((include_info.linenum == 0) == (m.line_number == 0));
                }
                let skip = self.line_zero.feed(&include_info);
                if skip.0 {
                    let r: Result<Option<String>, Error> = Ok(None);
                    proof {
                        assert(self.pstate().stack == st0.stack);
                        assert(step_matches(
                            st0,
                            self.pstate(),
                            line@,
                            None::<Seq<char>>,
                            self.search_view(),
                            self.inline_view(),
                            r,
                        ));
                    }
                    return r;
                }
                if include_info.state.ignorable() {
                    let r: Result<Option<String>, Error> = Ok(None);
                    proof {
                        assert(self.pstate() == st0);
                        assert(step_matches(
                            st0,
                            self.pstate(),
                            line@,
                            None::<Seq<char>>,
                            self.search_view(),
                            self.inline_view(),
                            r,
                        ));
                    }
                    return r;
                }
                let ghost fname = include_info.filename@;
                let ghost sys = include_info.state.system_header;
                let ghost status = include_info.state.status;
                let r = self.try_undo_system_include(include_info);
                proof {
                    let res = choose|res: Option<Seq<char>>|
                        #[trigger] undo_matches(
                            st0.stack,
                            self.pstate().stack,
                            sys,
                            status,
                            fname,
                            res,
                            self.search_view(),
                            self.inline_view(),
                            r,
                        );
                    assert(step_matches(
                        st0,
                        self.pstate(),
                        line@,
                        res,
                        self.search_view(),
                        self.inline_view(),
                        r,
                    ));
                }
                r
            },
        }
    }
}

/// How [`undo_spec`] under a given resolution outcome relates an old
/// stack, a new stack and a call's result.
pub open spec fn undo_matches(
    stack: Seq<bool>,
    stack2: Seq<bool>,
    system_flag: bool,
    status: FlagStatus,
    filename: Seq<char>,
    res: Option<Seq<char>>,
    search: Seq<Seq<char>>,
    inline: Seq<Seq<char>>,
    r: Result<Option<String>, Error>,
) -> bool {
    match undo_spec(stack, system_flag, status, res, filename, search, inline) {
        Ok((stk, out)) => r matches Ok(o) && stack2 == stk && opt_view(o) == out,
        Err(e) => r matches Err(e2) && e2@ == e,
    }
}

/// [`undo_matches`] under some resolution outcome.
pub open spec fn undo_related(
    stack: Seq<bool>,
    stack2: Seq<bool>,
    system_flag: bool,
    status: FlagStatus,
    filename: Seq<char>,
    search: Seq<Seq<char>>,
    inline: Seq<Seq<char>>,
    r: Result<Option<String>, Error>,
) -> bool {
    exists|res: Option<Seq<char>>|
        #[trigger] undo_matches(stack, stack2, system_flag, status, filename, res, search, inline, r)
}

/// [`step_matches`] under some resolution outcome.
pub open spec fn step_related(
    st: PState,
    st2: PState,
    line: Seq<char>,
    search: Seq<Seq<char>>,
    inline: Seq<Seq<char>>,
    r: Result<Option<String>, Error>,
) -> bool {
    exists|res: Option<Seq<char>>| #[trigger] step_matches(st, st2, line, res, search, inline, r)
}

/// How one call of [`process_lines`] relates to [`run_spec`] under a
/// sequence of resolution outcomes.
pub open spec fn run_matches(
    lines: Seq<Seq<char>>,
    res: Seq<Option<Seq<char>>>,
    search: Seq<Seq<char>>,
    inline: Seq<Seq<char>>,
    r: Result<Vec<String>, Error>,
) -> bool {
    match run_spec(init_state(), lines, res, search, inline) {
        Ok(p) => r matches Ok(v) && path_views(v@) == p.1,
        Err(e) => r matches Err(e2) && e2@ == e,
    }
}

/// [`run_matches`] under some sequence of resolution outcomes.
pub open spec fn run_related(
    lines: Seq<Seq<char>>,
    search: Seq<Seq<char>>,
    inline: Seq<Seq<char>>,
    r: Result<Vec<String>, Error>,
) -> bool {
    exists|res: Seq<Option<Seq<char>>>| #[trigger] run_matches(lines, res, search, inline, r)
}

/// Processing one more line at the end of a pass composes: the run over
/// `lines.push(l)` is the run over `lines` followed by one step on `l`.
pub proof fn lemma_run_snoc(
    st: PState,
    lines: Seq<Seq<char>>,
    res: Seq<Option<Seq<char>>>,
    l: Seq<char>,
    ro: Option<Seq<char>>,
    search: Seq<Seq<char>>,
    inline: Seq<Seq<char>>,
)
    requires
        res.len() == lines.len(),
    ensures
        run_spec(st, lines.push(l), res.push(ro), search, inline) == (match run_spec(
            st,
            lines,
            res,
            search,
            inline,
        ) {
            Err(e) => Err::<(PState, Seq<Seq<char>>), ErrorSpec>(e),
            Ok(p) => match step_line(p.0, l, ro, search, inline) {
                Err(e) => Err(e),
                Ok(q) => Ok((q.0, p.1 + opt_line(q.1))),
            },
        }),
    decreases lines.len(),
{
    let lp = lines.push(l);
    let rp = res.push(ro);
    assert(lp[0] == if lines.len() == 0 { l } else { lines[0] });
    assert(rp[0] == if res.len() == 0 { ro } else { res[0] });
    if lines.len() == 0 {
        assert(lp.drop_first() =~= lines);
        assert(rp.drop_first() =~= res);
        assert(run_spec(st, lines, res, search, inline) == Ok::<(PState, Seq<Seq<char>>), ErrorSpec>(
            (st, Seq::empty()),
        ));
        match step_line(st, l, ro, search, inline) {
            Err(e) => {
                assert(run_spec(st, lp, rp, search, inline) == Err::<
                    (PState, Seq<Seq<char>>),
                    ErrorSpec,
                >(e));
            },
            Ok(q) => {
                assert(run_spec(q.0, lp.drop_first(), rp.drop_first(), search, inline) == Ok::<
                    (PState, Seq<Seq<char>>),
                    ErrorSpec,
                >((q.0, Seq::empty())));
                assert(run_spec(st, lp, rp, search, inline) == Ok::<
                    (PState, Seq<Seq<char>>),
                    ErrorSpec,
                >((q.0, opt_line(q.1) + Seq::empty())));
                assert(opt_line(q.1) + Seq::<Seq<char>>::empty() =~= Seq::<Seq<char>>::empty()
                    + opt_line(q.1));
            },
        }
    } else {
        assert(lp.drop_first() =~= lines.drop_first().push(l));
        assert(rp.drop_first() =~= res.drop_first().push(ro));
        match step_line(st, lines[0], res[0], search, inline) {
            Err(e) => {},
            Ok(q) => {
                lemma_run_snoc(q.0, lines.drop_first(), res.drop_first(), l, ro, search, inline);
                match run_spec(q.0, lines.drop_first(), res.drop_first(), search, inline) {
                    Err(e) => {},
                    Ok(p) => {
                        match step_line(p.0, l, ro, search, inline) {
                            Err(e) => {},
                            Ok(q2) => {
                                assert(opt_line(q.1) + (p.1 + opt_line(q2.1)) =~= (opt_line(q.1)
                                    + p.1) + opt_line(q2.1));
                            },
                        }
                    },
                }
            },
        }
    }
}

/// A fatal condition inside a prefix of the input decides the whole
/// run.
pub proof fn lemma_run_err_extends(
    st: PState,
    lines: Seq<Seq<char>>,
    res: Seq<Option<Seq<char>>>,
    k: int,
    search: Seq<Seq<char>>,
    inline: Seq<Seq<char>>,
)
    requires
        0 <= k <= lines.len(),
        run_spec(st, lines.take(k), res, search, inline) is Err,
    ensures
        run_spec(st, lines, res, search, inline) == run_spec(st, lines.take(k), res, search, inline),
    decreases k,
{
    let lt = lines.take(k);
    if k == 0 {
        assert(lt.len() == 0);
    } else {
        assert(lt[0] == lines[0]);
        match step_line(st, lines[0], res[0], search, inline) {
            Err(e) => {},
            Ok(q) => {
                assert(lt.drop_first() =~= lines.drop_first().take(k - 1));
                lemma_run_err_extends(
                    q.0,
                    lines.drop_first(),
                    res.drop_first(),
                    k - 1,
                    search,
                    inline,
                );
            },
        }
    }
}

/// Drives one forward pass over the captured line sequence: parse each
/// line, feed directives through the preamble filter and the frame
/// stack, and collect whatever output each line produces, in order.
/// The first fatal condition aborts the pass with no partial output.
#[verifier::loop_isolation(false)]
pub fn process_lines(
    lines: Vec<String>,
    search_paths: SearchPaths,
    inline_paths: InlinePaths,
) -> (r: Result<Vec<String>, Error>)
    ensures
        run_related(path_views(lines@), search_paths@, inline_paths@, r),
{
    let ghost vs = path_views(lines@);
    let ghost search = search_paths@;
    let ghost inline = inline_paths@;
    let mut output: Vec<String> = Vec::new();
    let mut p = Processor::new(search_paths, inline_paths);
    let ghost mut resseq: Seq<Option<Seq<char>>> = Seq::empty();
    let n = lines.len();
    let mut i: usize = 0;
    proof {
        assert(vs.take(0) =~= Seq::<Seq<char>>::empty());
        assert(path_views(output@) =~= Seq::<Seq<char>>::empty());
    }
    while i < n
        invariant
            i <= n,
            n == lines@.len(),
            vs == path_views(lines@),
            p.search_view() == search,
            p.inline_view() == inline,
            resseq.len() == i,
            run_spec(init_state(), vs.take(i as int), resseq, search, inline) == Ok::<
                (PState, Seq<Seq<char>>),
                ErrorSpec,
            >((p.pstate(), path_views(output@))),
        decreases n - i,
    {
        let line = &lines[i];
        let ghost st_before = p.pstate();
        let ghost out_before = path_views(output@);
        let out = p.process_line(line.as_str());
        proof {
            assert(vs[i as int] == line@);
            let res = choose|res: Option<Seq<char>>|
                #[trigger] step_matches(st_before, p.pstate(), line@, res, search, inline, out);
            lemma_run_snoc(init_state(), vs.take(i as int), resseq, line@, res, search, inline);
            assert(vs.take(i as int).push(line@) =~= vs.take(i as int + 1));
            resseq = resseq.push(res);
        }
        match out {
            Err(e) => {
                let rr: Result<Vec<String>, Error> = Err(e);
                proof {
                    lemma_run_err_extends(init_state(), vs, resseq, i as int + 1, search, inline);
                    assert(run_matches(vs, resseq, search, inline, rr));
                    assert(run_related(vs, search, inline, rr));
                }
                return rr;
            },
            Ok(Some(s)) => {
                let ghost sv = s@;
                output.push(s);
                proof {
                    assert(path_views(output@) =~= out_before + seq![sv]);
                    assert(out_before + opt_line(Some(sv)) =~= out_before + seq![sv]);
                }
            },
            Ok(None) => {
                proof {
                    assert(out_before + opt_line(None) =~= out_before);
                }
            },
        }
        i = i + 1;
    }
    let rr: Result<Vec<String>, Error> = Ok(output);
    proof {
        assert(vs.take(n as int) =~= vs);
        assert(run_matches(vs, resseq, search, inline, rr));
        assert(run_related(vs, search, inline, rr));
    }
    rr
}

} // verus!

//! The line tokenizer: a character-level state machine that turns a raw
//! input line into a pipeline of command specifications.
//!
//! The grammar: single quotes make every character literal until the
//! closing quote; inside double quotes a backslash escapes only `` ` ``,
//! `\`, `$`, `"` and `!`, and is otherwise kept literally; outside quotes
//! a backslash escapes the next character unconditionally. Unquoted
//! whitespace closes the current token; quotes adjacent to other token
//! characters join into the same token. An unquoted `>` (or a
//! token-leading `1`, `2` or `&` immediately followed by `>`) starts
//! collecting a redirection target for stdout, stderr or both; a further
//! unquoted `>` while collecting marks the target as appending. An
//! unquoted `|` ends the current pipeline stage. At the end of input any
//! pending token or target is flushed into the final stage.
//!
//! The machine is specified by the spec functions [`parse_step`],
//! [`parse_run`] and [`parse_spec`]; [`parse_input`] is proved to return
//! exactly what [`parse_spec`] describes.

use vstd::prelude::*;

use crate::text::{chars_of, is_space, is_space_char, string_from_chars};

verus! {

/// Where a command's output stream goes: to the file named here (created
/// if absent; truncated or appended to as `append_to` says), or — when
/// `file_name` is absent — to the stream's default destination.
#[derive(Clone, Debug)]
pub struct OutputRedirection {
    pub file_name: Option<String>,
    pub append_to: bool,
}

/// One `|`-delimited pipeline stage: its argument vector (absent when the
/// stage held nothing but whitespace or redirections) and the parsed
/// redirections of its two output streams.
#[derive(Clone, Debug)]
pub struct ParsedCommand {
    pub tokens: Option<Vec<String>>,
    pub stdout: OutputRedirection,
    pub stderr: OutputRedirection,
}

/// Mathematical image of [`OutputRedirection`].
#[verifier::ext_equal]
pub ghost struct RedirectionModel {
    pub file_name: Option<Seq<char>>,
    pub append_to: bool,
}

/// Mathematical image of [`ParsedCommand`].
#[verifier::ext_equal]
pub ghost struct CommandModel {
    pub tokens: Option<Seq<Seq<char>>>,
    pub stdout: RedirectionModel,
    pub stderr: RedirectionModel,
}

impl View for OutputRedirection {
    type V = RedirectionModel;

    open spec fn view(&self) -> RedirectionModel {
        RedirectionModel {
            file_name: match self.file_name {
                Some(f) => Some(f@),
                None => None,
            },
            append_to: self.append_to,
        }
    }
}

impl View for ParsedCommand {
    type V = CommandModel;

    open spec fn view(&self) -> CommandModel {
        CommandModel {
            tokens: match self.tokens {
                Some(ts) => Some(ts@.map_values(|t: String| t@)),
                None => None,
            },
            stdout: self.stdout@,
            stderr: self.stderr@,
        }
    }
}

/// The views of a parsed pipeline's stages.
pub open spec fn pipeline_view(cmds: Seq<ParsedCommand>) -> Seq<CommandModel> {
    cmds.map_values(|c: ParsedCommand| c@)
}

/// Quoting mode of the tokenizer.
#[derive(Clone, Copy, Debug, PartialEq, Eq, Structural)]
pub enum QuoteState {
    Unquoted,
    InSingle,
    InDouble,
}

/// What the characters of the current token are destined for: an argument,
/// or the target path of a redirection.
#[derive(Clone, Copy, Debug, PartialEq, Eq, Structural)]
pub enum RedirectState {
    Args,
    OutTarget,
    ErrTarget,
    BothTarget,
}

/// Tokenizer state within one pipeline stage.
#[verifier::ext_equal]
pub ghost struct StageModel {
    /// Completed argument tokens of this stage.
    pub tokens: Seq<Seq<char>>,
    /// Characters of the token being accumulated.
    pub cur: Seq<char>,
    pub quote: QuoteState,
    /// A backslash has been seen and escapes the next character.
    pub escape: bool,
    /// A token-leading `1`, `2` or `&` that may begin a redirection.
    pub pending_fd: Option<char>,
    pub redirect: RedirectState,
    pub stdout: RedirectionModel,
    pub stderr: RedirectionModel,
}

/// Whole tokenizer state: finished stages plus the stage in progress.
#[verifier::ext_equal]
pub ghost struct ParseModel {
    pub stages: Seq<CommandModel>,
    pub stage: StageModel,
}

pub open spec fn initial_redirection() -> RedirectionModel {
    RedirectionModel { file_name: None, append_to: false }
}

pub open spec fn initial_stage() -> StageModel {
    StageModel {
        tokens: Seq::empty(),
        cur: Seq::empty(),
        quote: QuoteState::Unquoted,
        escape: false,
        pending_fd: None,
        redirect: RedirectState::Args,
        stdout: initial_redirection(),
        stderr: initial_redirection(),
    }
}

pub open spec fn parse_init() -> ParseModel {
    ParseModel { stages: Seq::empty(), stage: initial_stage() }
}

/// Close the token in progress, if any: as an argument, or as the target
/// path of the redirection being collected.
pub open spec fn flush_current(st: StageModel) -> StageModel {
    if st.cur.len() == 0 {
        st
    } else {
        match st.redirect {
            RedirectState::Args => StageModel { tokens: st.tokens.push(st.cur), cur: Seq::empty(), ..st },
            RedirectState::OutTarget => StageModel {
                cur: Seq::empty(),
                redirect: RedirectState::Args,
                stdout: RedirectionModel { file_name: Some(st.cur), ..st.stdout },
                ..st
            },
            RedirectState::ErrTarget => StageModel {
                cur: Seq::empty(),
                redirect: RedirectState::Args,
                stderr: RedirectionModel { file_name: Some(st.cur), ..st.stderr },
                ..st
            },
            RedirectState::BothTarget => StageModel {
                cur: Seq::empty(),
                redirect: RedirectState::Args,
                stdout: RedirectionModel { file_name: Some(st.cur), ..st.stdout },
                stderr: RedirectionModel { file_name: Some(st.cur), ..st.stderr },
                ..st
            },
        }
    }
}

/// A held file-descriptor character turned out not to begin a redirection:
/// it becomes an ordinary token character.
pub open spec fn resolve_pending_fd(st: StageModel) -> StageModel {
    match st.pending_fd {
        Some(f) => StageModel { cur: st.cur.push(f), pending_fd: None, ..st },
        None => st,
    }
}

/// The command specification a finished stage yields.
pub open spec fn stage_command(st: StageModel) -> CommandModel {
    CommandModel {
        tokens: if st.tokens.len() == 0 {
            None
        } else {
            Some(st.tokens)
        },
        stdout: st.stdout,
        stderr: st.stderr,
    }
}

/// The characters a backslash may escape inside double quotes.
pub open spec fn double_quote_escapable(c: char) -> bool {
    c == '`' || c == '\\' || c == '$' || c == '"' || c == '!'
}

/// The redirection selected by a token-leading file-descriptor character.
pub open spec fn fd_redirect(f: char) -> RedirectState {
    if f == '1' {
        RedirectState::OutTarget
    } else if f == '2' {
        RedirectState::ErrTarget
    } else {
        RedirectState::BothTarget
    }
}

/// One step of the state machine on character `c`, with no pending
/// file-descriptor character.
pub open spec fn parse_step_core(m: ParseModel, c: char) -> ParseModel {
    let st = m.stage;
    match st.quote {
        QuoteState::InSingle => {
            if c == '\'' {
                ParseModel { stage: StageModel { quote: QuoteState::Unquoted, ..st }, ..m }
            } else {
                ParseModel { stage: StageModel { cur: st.cur.push(c), ..st }, ..m }
            }
        },
        QuoteState::InDouble => {
            if st.escape {
                if double_quote_escapable(c) {
                    ParseModel { stage: StageModel { cur: st.cur.push(c), escape: false, ..st }, ..m }
                } else {
                    ParseModel {
                        stage: StageModel { cur: st.cur.push('\\').push(c), escape: false, ..st },
                        ..m
                    }
                }
            } else if c == '\\' {
                ParseModel { stage: StageModel { escape: true, ..st }, ..m }
            } else if c == '"' {
                ParseModel { stage: StageModel { quote: QuoteState::Unquoted, ..st }, ..m }
            } else {
                ParseModel { stage: StageModel { cur: st.cur.push(c), ..st }, ..m }
            }
        },
        QuoteState::Unquoted => {
            if st.escape {
                ParseModel { stage: StageModel { cur: st.cur.push(c), escape: false, ..st }, ..m }
            } else if c == '\\' {
                ParseModel { stage: StageModel { escape: true, ..st }, ..m }
            } else if c == '\'' {
                ParseModel { stage: StageModel { quote: QuoteState::InSingle, ..st }, ..m }
            } else if c == '"' {
                ParseModel { stage: StageModel { quote: QuoteState::InDouble, ..st }, ..m }
            } else if c == '|' {
                ParseModel {
                    stages: m.stages.push(stage_command(flush_current(st))),
                    stage: initial_stage(),
                }
            } else if c == '>' {
                match st.redirect {
                    RedirectState::Args => ParseModel {
                        stage: StageModel { redirect: RedirectState::OutTarget, ..st },
                        ..m
                    },
                    RedirectState::OutTarget => ParseModel {
                        stage: StageModel {
                            stdout: RedirectionModel { append_to: true, ..st.stdout },
                            ..st
                        },
                        ..m
                    },
                    RedirectState::ErrTarget => ParseModel {
                        stage: StageModel {
                            stderr: RedirectionModel { append_to: true, ..st.stderr },
                            ..st
                        },
                        ..m
                    },
                    RedirectState::BothTarget => ParseModel {
                        stage: StageModel {
                            stdout: RedirectionModel { append_to: true, ..st.stdout },
                            stderr: RedirectionModel { append_to: true, ..st.stderr },
                            ..st
                        },
                        ..m
                    },
                }
            } else if (c == '1' || c == '2' || c == '&') && st.redirect == RedirectState::Args
                && st.cur.len() == 0 {
                ParseModel { stage: StageModel { pending_fd: Some(c), ..st }, ..m }
            } else if is_space_char(c) {
                ParseModel { stage: flush_current(st), ..m }
            } else {
                ParseModel { stage: StageModel { cur: st.cur.push(c), ..st }, ..m }
            }
        },
    }
}

/// One step of the state machine on character `c`.
pub open spec fn parse_step(m: ParseModel, c: char) -> ParseModel {
    match m.stage.pending_fd {
        Some(f) => {
            if c == '>' {
                ParseModel {
                    stage: StageModel { pending_fd: None, redirect: fd_redirect(f), ..m.stage },
                    ..m
                }
            } else {
                parse_step_core(ParseModel { stage: resolve_pending_fd(m.stage), ..m }, c)
            }
        },
        None => parse_step_core(m, c),
    }
}

/// Run the state machine over a whole character sequence.
pub open spec fn parse_run(m: ParseModel, s: Seq<char>) -> ParseModel
    decreases s.len(),
{
    if s.len() == 0 {
        m
    } else {
        parse_run(parse_step(m, s[0]), s.skip(1))
    }
}

/// At end of input: flush any pending token or target, then close the
/// final stage.
pub open spec fn parse_finish(m: ParseModel) -> Seq<CommandModel> {
    m.stages.push(stage_command(flush_current(resolve_pending_fd(m.stage))))
}

/// A stage matters to the executor when it carries arguments or names a
/// redirection target. A stage with a redirection but no arguments is a
/// degenerate segment: parsing keeps it, and the executor skips it.
pub open spec fn stage_has_content(c: CommandModel) -> bool {
    ||| c.tokens is Some
    ||| c.stdout.file_name is Some
    ||| c.stderr.file_name is Some
}

/// Whether any stage of the pipeline carries arguments or a redirection.
pub open spec fn pipeline_has_content(stages: Seq<CommandModel>) -> bool {
    exists|i: int| 0 <= i < stages.len() && stage_has_content(#[trigger] stages[i])
}

/// What parsing an input line yields: nothing when every stage holds
/// neither arguments nor a redirection — a line of nothing but
/// whitespace and pipes — and the full pipeline otherwise, degenerate
/// stages included.
pub open spec fn parse_spec(s: Seq<char>) -> Option<Seq<CommandModel>> {
    let stages = parse_finish(parse_run(parse_init(), s));
    if pipeline_has_content(stages) {
        Some(stages)
    } else {
        None
    }
}

proof fn lemma_parse_run_snoc(m: ParseModel, s: Seq<char>, c: char)
    ensures
        parse_run(m, s.push(c)) == parse_step(parse_run(m, s), c),
    decreases s.len(),
{
    if s.len() == 0 {
        assert(s.push(c)[0] == c);
        assert(s.push(c).skip(1) =~= Seq::<char>::empty());
        assert(parse_run(m, s) == m);
        assert(parse_run(parse_step(m, c), Seq::<char>::empty()) == parse_step(m, c));
        assert(parse_run(m, s.push(c)) == parse_run(parse_step(m, c), s.push(c).skip(1)));
    } else {
        assert(s.push(c)[0] == s[0]);
        assert(s.push(c).skip(1) =~= s.skip(1).push(c));
        lemma_parse_run_snoc(parse_step(m, s[0]), s.skip(1), c);
        assert(parse_run(m, s.push(c)) == parse_run(parse_step(m, s[0]), s.skip(1).push(c)));
        assert(parse_run(m, s) == parse_run(parse_step(m, s[0]), s.skip(1)));
    }
}

/// On every input that holds only whitespace, the state machine stays in
/// its initial state.
proof fn lemma_parse_run_whitespace(s: Seq<char>)
    requires
        forall|i: int| 0 <= i < s.len() ==> is_space_char(#[trigger] s[i]),
    ensures
        parse_run(parse_init(), s) == parse_init(),
    decreases s.len(),
{
    if s.len() > 0 {
        assert(is_space_char(s[0]));
        assert(parse_step(parse_init(), s[0]) =~~= parse_init());
        assert(forall|i: int| 0 <= i < s.skip(1).len() ==> is_space_char(#[trigger] s.skip(1)[i]));
        lemma_parse_run_whitespace(s.skip(1));
    }
}

/// For every input consisting only of whitespace, parsing yields nothing.
pub proof fn lemma_parse_whitespace_none(s: Seq<char>)
    requires
        forall|i: int| 0 <= i < s.len() ==> is_space_char(#[trigger] s[i]),
    ensures
        parse_spec(s) is None,
{
    lemma_parse_run_whitespace(s);
}

/// A stage's argument vector, when present, is never empty: an empty
/// stage yields `None`, so `argv[0]` — the command name — always exists
/// in a stage that carries arguments.
pub open spec fn stage_tokens_wf(c: CommandModel) -> bool {
    match c.tokens {
        Some(ts) => ts.len() > 0,
        None => true,
    }
}

spec fn stages_tokens_wf(m: ParseModel) -> bool {
    forall|i: int| 0 <= i < m.stages.len() ==> stage_tokens_wf(#[trigger] m.stages[i])
}

proof fn lemma_step_keeps_stages_wf(m: ParseModel, c: char)
    requires
        stages_tokens_wf(m),
    ensures
        stages_tokens_wf(parse_step(m, c)),
{
    let next = parse_step(m, c);
    assert forall|i: int| 0 <= i < next.stages.len() implies stage_tokens_wf(
        #[trigger] next.stages[i],
    ) by {
        if i < m.stages.len() {
            assert(stage_tokens_wf(m.stages[i]));
        }
    }
}

proof fn lemma_run_keeps_stages_wf(m: ParseModel, s: Seq<char>)
    requires
        stages_tokens_wf(m),
    ensures
        stages_tokens_wf(parse_run(m, s)),
    decreases s.len(),
{
    if s.len() > 0 {
        lemma_step_keeps_stages_wf(m, s[0]);
        lemma_run_keeps_stages_wf(parse_step(m, s[0]), s.skip(1));
    }
}

/// A parsed pipeline is never empty, and every stage that carries an
/// argument vector carries at least the command name in it.
pub proof fn lemma_parsed_pipeline_wf(s: Seq<char>)
    ensures
        match parse_spec(s) {
            Some(stages) => stages.len() > 0 && forall|i: int|
                0 <= i < stages.len() ==> stage_tokens_wf(#[trigger] stages[i]),
            None => true,
        },
{
    lemma_run_keeps_stages_wf(parse_init(), s);
    let m = parse_run(parse_init(), s);
    let stages = parse_finish(m);
    assert forall|i: int| 0 <= i < stages.len() implies stage_tokens_wf(
        #[trigger] stages[i],
    ) by {
        if i < m.stages.len() {
            assert(stage_tokens_wf(m.stages[i]));
        }
    }
}

/// Tokenizer state under construction, mirroring [`StageModel`] and
/// [`ParseModel`] with executable data.
struct Parser {
    stages: Vec<ParsedCommand>,
    tokens: Vec<String>,
    cur: Vec<char>,
    quote: QuoteState,
    escape: bool,
    pending_fd: Option<char>,
    redirect: RedirectState,
    stdout: OutputRedirection,
    stderr: OutputRedirection,
}

impl Parser {
    spec fn stage_abs(self) -> StageModel {
        StageModel {
            tokens: self.tokens@.map_values(|t: String| t@),
            cur: self.cur@,
            quote: self.quote,
            escape: self.escape,
            pending_fd: self.pending_fd,
            redirect: self.redirect,
            stdout: self.stdout@,
            stderr: self.stderr@,
        }
    }

    spec fn abs(self) -> ParseModel {
        ParseModel { stages: pipeline_view(self.stages@), stage: self.stage_abs() }
    }

    fn new() -> (r: Parser)
        ensures
            r.abs() == parse_init(),
    {
        let r = Parser {
            stages: Vec::new(),
            tokens: Vec::new(),
            cur: Vec::new(),
            quote: QuoteState::Unquoted,
            escape: false,
            pending_fd: None,
            redirect: RedirectState::Args,
            stdout: OutputRedirection { file_name: None, append_to: false },
            stderr: OutputRedirection { file_name: None, append_to: false },
        };
        proof {
            assert(r.abs() =~~= parse_init());
        }
        r
    }

    fn flush_cur(&mut self)
        ensures
            final(self).abs() == (ParseModel {
                stage: flush_current(old(self).stage_abs()),
                ..old(self).abs()
            }),
    {
        if self.cur.len() == 0 {
            proof {
                assert(self.abs() =~~= ParseModel {
                    stage: flush_current(old(self).stage_abs()),
                    ..old(self).abs()
                });
            }
            return;
        }
        let token = string_from_chars(&self.cur);
        self.cur = Vec::new();
        match self.redirect {
            RedirectState::Args => {
                self.tokens.push(token);
            },
            RedirectState::OutTarget => {
                self.stdout.file_name = Some(token);
                self.redirect = RedirectState::Args;
            },
            RedirectState::ErrTarget => {
                self.stderr.file_name = Some(token);
                self.redirect = RedirectState::Args;
            },
            RedirectState::BothTarget => {
                self.stdout.file_name = Some(token.clone());
                self.stderr.file_name = Some(token);
                self.redirect = RedirectState::Args;
            },
        }
        proof {
            assert(self.abs() =~~= ParseModel {
                stage: flush_current(old(self).stage_abs()),
                ..old(self).abs()
            });
        }
    }

    fn end_stage(&mut self)
        ensures
            final(self).abs() == (ParseModel {
                stages: old(self).abs().stages.push(
                    stage_command(flush_current(old(self).stage_abs())),
                ),
                stage: initial_stage(),
            }),
    {
        self.flush_cur();
        let mut tokens: Vec<String> = Vec::new();
        core::mem::swap(&mut tokens, &mut self.tokens);
        let mut stdout = OutputRedirection { file_name: None, append_to: false };
        core::mem::swap(&mut stdout, &mut self.stdout);
        let mut stderr = OutputRedirection { file_name: None, append_to: false };
        core::mem::swap(&mut stderr, &mut self.stderr);
        let cmd = ParsedCommand {
            tokens: if tokens.len() == 0 {
                None
            } else {
                Some(tokens)
            },
            stdout,
            stderr,
        };
        self.stages.push(cmd);
        self.quote = QuoteState::Unquoted;
        self.escape = false;
        self.pending_fd = None;
        self.redirect = RedirectState::Args;
        proof {
            assert(self.abs() =~~= ParseModel {
                stages: old(self).abs().stages.push(
                    stage_command(flush_current(old(self).stage_abs())),
                ),
                stage: initial_stage(),
            });
        }
    }

    fn step_core(&mut self, c: char)
        ensures
            final(self).abs() == parse_step_core(old(self).abs(), c),
    {
        match self.quote {
            QuoteState::InSingle => {
                if c == '\'' {
                    self.quote = QuoteState::Unquoted;
                } else {
                    self.cur.push(c);
                }
                proof {
                    assert(self.abs() =~~= parse_step_core(old(self).abs(), c));
                }
            },
            QuoteState::InDouble => {
                if self.escape {
                    if c == '`' || c == '\\' || c == '$' || c == '"' || c == '!' {
                        self.cur.push(c);
                    } else {
                        self.cur.push('\\');
                        self.cur.push(c);
                    }
                    self.escape = false;
                } else if c == '\\' {
                    self.escape = true;
                } else if c == '"' {
                    self.quote = QuoteState::Unquoted;
                } else {
                    self.cur.push(c);
                }
                proof {
                    assert(self.abs() =~~= parse_step_core(old(self).abs(), c));
                }
            },
            QuoteState::Unquoted => {
                if self.escape {
                    self.cur.push(c);
                    self.escape = false;
                    proof {
                        assert(self.abs() =~~= parse_step_core(old(self).abs(), c));
                    }
                } else if c == '\\' {
                    self.escape = true;
                    proof {
                        assert(self.abs() =~~= parse_step_core(old(self).abs(), c));
                    }
                } else if c == '\'' {
                    self.quote = QuoteState::InSingle;
                    proof {
                        assert(self.abs() =~~= parse_step_core(old(self).abs(), c));
                    }
                } else if c == '"' {
                    self.quote = QuoteState::InDouble;
                    proof {
                        assert(self.abs() =~~= parse_step_core(old(self).abs(), c));
                    }
                } else if c == '|' {
                    self.end_stage();
                    proof {
                        assert(self.abs() =~~= parse_step_core(old(self).abs(), c));
                    }
                } else if c == '>' {
                    match self.redirect {
                        RedirectState::Args => {
                            self.redirect = RedirectState::OutTarget;
                        },
                        RedirectState::OutTarget => {
                            self.stdout.append_to = true;
                        },
                        RedirectState::ErrTarget => {
                            self.stderr.append_to = true;
                        },
                        RedirectState::BothTarget => {
                            self.stdout.append_to = true;
                            self.stderr.append_to = true;
                        },
                    }
                    proof {
                        assert(self.abs() =~~= parse_step_core(old(self).abs(), c));
                    }
                } else if (c == '1' || c == '2' || c == '&')
                    && matches!(self.redirect, RedirectState::Args) && self.cur.len() == 0 {
                    self.pending_fd = Some(c);
                    proof {
                        assert(self.abs() =~~= parse_step_core(old(self).abs(), c));
                    }
                } else if is_space(c) {
                    self.flush_cur();
                    proof {
                        assert(self.abs() =~~= parse_step_core(old(self).abs(), c));
                    }
                } else {
                    self.cur.push(c);
                    proof {
                        assert(self.abs() =~~= parse_step_core(old(self).abs(), c));
                    }
                }
            },
        }
    }

    fn step(&mut self, c: char)
        ensures
            final(self).abs() == parse_step(old(self).abs(), c),
    {
        let pending = self.pending_fd;
        match pending {
            Some(f) => {
                if c == '>' {
                    self.pending_fd = None;
                    self.redirect = if f == '1' {
                        RedirectState::OutTarget
                    } else if f == '2' {
                        RedirectState::ErrTarget
                    } else {
                        RedirectState::BothTarget
                    };
                    proof {
                        assert(self.abs() =~~= parse_step(old(self).abs(), c));
                    }
                } else {
                    self.cur.push(f);
                    self.pending_fd = None;
                    proof {
                        assert(self.abs() =~~= ParseModel {
                            stage: resolve_pending_fd(old(self).stage_abs()),
                            ..old(self).abs()
                        });
                    }
                    self.step_core(c);
                }
            },
            None => {
                self.step_core(c);
            },
        }
    }

    fn into_pipeline(&mut self) -> (r: Option<Vec<ParsedCommand>>)
        ensures
            match r {
                Some(cmds) => pipeline_view(cmds@) == parse_finish(old(self).abs())
                    && pipeline_has_content(parse_finish(old(self).abs())),
                None => !pipeline_has_content(parse_finish(old(self).abs())),
            },
    {
        let pending = self.pending_fd;
        match pending {
            Some(f) => {
                self.cur.push(f);
                self.pending_fd = None;
                proof {
                    assert(self.abs() =~~= ParseModel {
                        stage: resolve_pending_fd(old(self).stage_abs()),
                        ..old(self).abs()
                    });
                }
            },
            None => {},
        }
        self.end_stage();
        proof {
            assert(pipeline_view(self.stages@) =~~= parse_finish(old(self).abs()));
        }
        let n = self.stages.len();
        let mut i: usize = 0;
        let mut found = false;
        while i < n
            invariant
                i <= n,
                n == self.stages@.len(),
                found == exists|j: int|
                    0 <= j < i && stage_has_content(#[trigger] pipeline_view(self.stages@)[j]),
            decreases n - i,
        {
            let has = self.stages[i].tokens.is_some() || self.stages[i].stdout.file_name.is_some()
                || self.stages[i].stderr.file_name.is_some();
            proof {
                assert(pipeline_view(self.stages@)[i as int] == self.stages@[i as int]@);
                assert(has == stage_has_content(pipeline_view(self.stages@)[i as int]));
            }
            if has {
                found = true;
            }
            i = i + 1;
        }
        if found {
            let mut stages: Vec<ParsedCommand> = Vec::new();
            core::mem::swap(&mut stages, &mut self.stages);
            Some(stages)
        } else {
            None
        }
    }
}

/// Parse an input line into its pipeline of command specifications.
///
/// Yields nothing exactly when every stage of the line holds neither
/// arguments nor a redirection — in particular for a line of nothing
/// but whitespace. A stage with a redirection but no arguments is kept
/// as a degenerate segment for the executor to skip.
pub fn parse_input(input: &str) -> (r: Option<Vec<ParsedCommand>>)
    ensures
        match r {
            Some(cmds) => parse_spec(input@) == Some(pipeline_view(cmds@)),
            None => parse_spec(input@) is None,
        },
{
    let chars = chars_of(input);
    let n = chars.len();
    let mut parser = Parser::new();
    let mut i: usize = 0;
    while i < n
        invariant
            i <= n,
            n == chars@.len(),
            chars@ == input@,
            parser.abs() == parse_run(parse_init(), input@.subrange(0, i as int)),
        decreases n - i,
    {
        let ghost prev = i as int;
        let c = chars[i];
        parser.step(c);
        i = i + 1;
        proof {
            assert(input@.subrange(0, i as int) =~= input@.subrange(0, prev).push(c));
            lemma_parse_run_snoc(parse_init(), input@.subrange(0, prev), c);
        }
    }
    proof {
        assert(input@.subrange(0, n as int) =~= input@);
    }
    parser.into_pipeline()
}

/// What one escaped character expands to in `echo -e` output.
pub open spec fn escape_replacement(c: char) -> Seq<char> {
    if c == 'n' {
        seq!['\n']
    } else if c == 't' {
        seq!['\t']
    } else if c == 'r' {
        seq!['\r']
    } else if c == '\\' {
        seq!['\\']
    } else if c == '0' {
        seq!['\0']
    } else if c == '"' {
        seq!['"']
    } else if c == '\'' {
        seq!['\'']
    } else {
        seq!['\\', c]
    }
}

/// Backslash escape expansion over a character sequence: each backslash
/// pair becomes its replacement, an unrecognized pair is kept whole, and
/// a trailing lone backslash is dropped.
pub open spec fn expand_escapes(s: Seq<char>) -> Seq<char>
    decreases s.len(),
{
    if s.len() == 0 {
        Seq::empty()
    } else if s[0] == '\\' {
        if s.len() == 1 {
            Seq::empty()
        } else {
            escape_replacement(s[1]) + expand_escapes(s.skip(2))
        }
    } else {
        seq![s[0]] + expand_escapes(s.skip(1))
    }
}

/// Expand the `echo -e` escape sequences of `string`.
pub fn expand_escape_sequences(string: &str) -> (r: String)
    ensures
        r@ == expand_escapes(string@),
{
    let s = chars_of(string);
    let n = s.len();
    let mut out: Vec<char> = Vec::new();
    let mut i: usize = 0;
    proof {
        assert(s@.skip(0) =~= s@);
        assert(Seq::<char>::empty() + expand_escapes(s@) =~= expand_escapes(s@));
    }
    while i < n
        invariant
            i <= n,
            n == s@.len(),
            s@ == string@,
            expand_escapes(string@) == out@ + expand_escapes(s@.skip(i as int)),
        decreases n - i,
    {
        let ghost prev = i as int;
        let ghost out0 = out@;
        let c = s[i];
        if c == '\\' {
            if i + 1 < n {
                let nx = s[i + 1];
                if nx == 'n' {
                    out.push('\n');
                } else if nx == 't' {
                    out.push('\t');
                } else if nx == 'r' {
                    out.push('\r');
                } else if nx == '\\' {
                    out.push('\\');
                } else if nx == '0' {
                    out.push('\0');
                } else if nx == '"' {
                    out.push('"');
                } else if nx == '\'' {
                    out.push('\'');
                } else {
                    out.push('\\');
                    out.push(nx);
                }
                i = i + 2;
                proof {
                    assert(s@.skip(prev)[0] == c);
                    assert(s@.skip(prev)[1] == nx);
                    assert(s@.skip(prev).skip(2) =~= s@.skip(i as int));
                    assert(out@ =~= out0 + escape_replacement(nx));
                    assert(out0 + (escape_replacement(nx) + expand_escapes(s@.skip(i as int)))
                        =~= (out0 + escape_replacement(nx)) + expand_escapes(
                        s@.skip(i as int),
                    ));
                }
            } else {
                i = i + 1;
                proof {
                    assert(s@.skip(prev)[0] == c);
                    assert(s@.skip(prev).len() == 1);
                    assert(expand_escapes(s@.skip(prev)) =~= Seq::<char>::empty());
                    assert(s@.skip(i as int) =~= Seq::<char>::empty());
                    assert(out@ + Seq::<char>::empty() =~= out@);
                }
            }
        } else {
            out.push(c);
            i = i + 1;
            proof {
                assert(s@.skip(prev)[0] == c);
                assert(s@.skip(prev).skip(1) =~= s@.skip(i as int));
                assert(out@ =~= out0 + seq![c]);
                assert(out0 + (seq![c] + expand_escapes(s@.skip(i as int))) =~= (out0
                    + seq![c]) + expand_escapes(s@.skip(i as int)));
            }
        }
    }
    proof {
        assert(s@.skip(n as int) =~= Seq::<char>::empty());
        assert(out@ + Seq::<char>::empty() =~= out@);
    }
    string_from_chars(&out)
}

} // verus!

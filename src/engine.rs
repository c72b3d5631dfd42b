use std::collections::VecDeque;
use vstd::prelude::*;

use crate::table::MacroTable;
use crate::text::{alphanumeric, is_alnum, stripped, stripped_all, strip_comments};

verus! {

/// Where the engine stands between two characters of a frame's input.
#[derive(Clone, Copy, Debug, PartialEq, Eq, Structural)]
pub enum Mode {
    /// Copying text to the output.
    Text,
    /// Just read a backslash.
    Backslash,
    /// Reading a macro name.
    Name,
    /// Capturing an argument group.
    Arg,
    /// Between two argument groups, expecting `{`.
    Gap,
}

/// The macro forms.
#[derive(Clone, Copy, Debug, PartialEq, Eq, Structural)]
pub enum Form {
    Def,
    Undef,
    If,
    IfDef,
    ExpandAfter,
    FileInput,
    Custom,
}

/// Why a run stopped without a result.
#[derive(Clone, Copy, Debug, PartialEq, Eq, Structural)]
pub enum Fault {
    /// A custom macro was invoked that the table does not hold.
    UnknownMacro,
    /// A macro name was not followed directly by `{`.
    BadName,
    /// A bare name held another character, or a group was not followed by `{`.
    BadArgument,
    /// `def` or `undef` was given an empty name.
    EmptyName,
    /// `def` of a name that is already defined.
    AlreadyDefined,
    /// `undef` of a name that is not defined.
    NotDefined,
    /// The input ended inside a macro name or an argument.
    Unterminated,
    /// Braces nested deeper than a `usize` can count.
    TooDeep,
    /// A file named by the file-input form could not be read.
    Unreadable,
}

/// Where a run stands.
#[derive(Clone, Copy, Debug, PartialEq, Eq, Structural)]
pub enum Status {
    /// More steps are to be taken.
    Running,
    /// Waiting for the text of the file that `file` names.
    NeedFile,
    /// Finished; the root frame's output is the result.
    Done,
    /// Stopped on a fault; nothing is kept.
    Failed(Fault),
}

/// One level of expansion: the pending input, the output so far and the
/// construct being read.
pub struct FrameModel {
    pub input: Seq<char>,
    pub output: Seq<char>,
    pub mode: Mode,
    pub form: Form,
    pub name: Seq<char>,
    /// Closed argument groups of the construct being read.
    pub done: Seq<Seq<char>>,
    /// The argument group being captured.
    pub cur: Seq<char>,
    pub depth: nat,
    /// The previous character of the group was an unescaped backslash.
    pub escaped: bool,
    /// Text put before this frame's output when it is handed to the frame below.
    pub after: Seq<char>,
}

/// The whole engine: a stack of frames (top last), the macro table, the status and
/// the file last asked for.
pub struct EngineModel {
    pub frames: Seq<FrameModel>,
    pub table: Map<Seq<char>, Seq<char>>,
    pub status: Status,
    pub file: Seq<char>,
}

/// The number of argument groups each form takes.
pub open spec fn arity(form: Form) -> nat {
    match form {
        Form::Def => 2,
        Form::Undef => 1,
        Form::If => 3,
        Form::IfDef => 3,
        Form::ExpandAfter => 2,
        Form::FileInput => 1,
        Form::Custom => 1,
    }
}

/// The form a macro name selects; every name but the built-in ones is custom.
pub open spec fn form_of(name: Seq<char>) -> Form {
    if name == seq!['d', 'e', 'f'] {
        Form::Def
    } else if name == seq!['u', 'n', 'd', 'e', 'f'] {
        Form::Undef
    } else if name == seq!['i', 'f'] {
        Form::If
    } else if name == seq!['i', 'f', 'd', 'e', 'f'] {
        Form::IfDef
    } else if name == seq!['e', 'x', 'p', 'a', 'n', 'd', 'a', 'f', 't', 'e', 'r'] {
        Form::ExpandAfter
    } else if name == seq!['i', 'n', 'c', 'l', 'u', 'd', 'e'] {
        Form::FileInput
    } else {
        Form::Custom
    }
}

/// Characters that a backslash turns into themselves.
pub open spec fn is_special(c: char) -> bool {
    c == '\\' || c == '#' || c == '%' || c == '{' || c == '}'
}

/// Whether the group being captured is a bare name (first group of def, undef, ifdef).
pub open spec fn bare_slot(f: FrameModel) -> bool {
    f.done.len() == 0 && (f.form == Form::Def || f.form == Form::Undef || f.form == Form::IfDef)
}

/// A macro body with each unescaped `#` replaced by `arg`; escaped characters keep
/// their backslash.
pub open spec fn substituted(body: Seq<char>, arg: Seq<char>, escaped: bool) -> Seq<char>
    decreases body.len(),
{
    if body.len() == 0 {
        seq![]
    } else {
        let c = body[0];
        let rest = body.drop_first();
        if escaped {
            seq![c] + substituted(rest, arg, false)
        } else if c == '\\' {
            seq![c] + substituted(rest, arg, true)
        } else if c == '#' {
            arg + substituted(rest, arg, false)
        } else {
            seq![c] + substituted(rest, arg, false)
        }
    }
}

/// A frame in text mode over `input`, with nothing read yet.
pub open spec fn fresh_frame(input: Seq<char>, after: Seq<char>) -> FrameModel {
    FrameModel {
        input,
        output: seq![],
        mode: Mode::Text,
        form: Form::Custom,
        name: seq![],
        done: seq![],
        cur: seq![],
        depth: 0,
        escaped: false,
        after,
    }
}

/// An engine about to expand `input` with macro table `table`.
pub open spec fn start(input: Seq<char>, table: Map<Seq<char>, Seq<char>>) -> EngineModel {
    EngineModel { frames: seq![fresh_frame(input, seq![])], table, status: Status::Running, file: seq![] }
}

/// A failed engine: it keeps only the fault.
pub open spec fn failed(e: Fault) -> EngineModel {
    EngineModel { frames: seq![], table: Map::empty(), status: Status::Failed(e), file: seq![] }
}

/// `m` with its top frame replaced by `f`.
pub open spec fn with_top(m: EngineModel, f: FrameModel) -> EngineModel {
    EngineModel { frames: m.frames.update(m.frames.len() - 1, f), ..m }
}

/// `f` back in text mode after a construct is done.
pub open spec fn reset(f: FrameModel) -> FrameModel {
    FrameModel { mode: Mode::Text, name: seq![], done: seq![], cur: seq![], depth: 0, escaped: false, ..f }
}

/// `f` (reset) with `t` put in front of its input.
pub open spec fn prepend(f: FrameModel, t: Seq<char>) -> FrameModel {
    FrameModel { input: t + reset(f).input, ..reset(f) }
}

/// The effect of a construct whose groups `args` are all captured; `f` is the top frame.
pub open spec fn complete(m: EngineModel, f: FrameModel, args: Seq<Seq<char>>) -> EngineModel {
    let g = reset(f);
    match f.form {
        Form::Def => {
            if args[0].len() == 0 {
                failed(Fault::EmptyName)
            } else if m.table.contains_key(args[0]) {
                failed(Fault::AlreadyDefined)
            } else {
                EngineModel { table: m.table.insert(args[0], args[1]), ..with_top(m, g) }
            }
        },
        Form::Undef => {
            if args[0].len() == 0 {
                failed(Fault::EmptyName)
            } else if !m.table.contains_key(args[0]) {
                failed(Fault::NotDefined)
            } else {
                EngineModel { table: m.table.remove(args[0]), ..with_top(m, g) }
            }
        },
        Form::If => with_top(
            m,
            prepend(f, if args[0].len() > 0 { args[1] } else { args[2] }),
        ),
        Form::IfDef => with_top(
            m,
            prepend(f, if m.table.contains_key(args[0]) { args[1] } else { args[2] }),
        ),
        Form::ExpandAfter => EngineModel {
            frames: with_top(m, g).frames.push(fresh_frame(args[1], args[0])),
            ..m
        },
        Form::FileInput => EngineModel { status: Status::NeedFile, file: args[0], ..with_top(m, g) },
        Form::Custom => {
            if m.table.contains_key(f.name) {
                with_top(m, prepend(f, substituted(m.table[f.name], args[0], false)))
            } else {
                failed(Fault::UnknownMacro)
            }
        },
    }
}

/// The top frame `f` closes its current group.
pub open spec fn close_group(m: EngineModel, f: FrameModel) -> EngineModel {
    let args = f.done.push(f.cur);
    if args.len() < arity(f.form) {
        with_top(m, FrameModel { mode: Mode::Gap, done: args, cur: seq![], depth: 0, ..f })
    } else {
        complete(m, f, args)
    }
}

/// The top frame `f`, capturing a group, reads `c`.
pub open spec fn on_arg(m: EngineModel, f: FrameModel, c: char) -> EngineModel {
    if bare_slot(f) {
        if alphanumeric(c) {
            with_top(m, FrameModel { cur: f.cur.push(c), ..f })
        } else if c == '}' {
            close_group(m, f)
        } else {
            failed(Fault::BadArgument)
        }
    } else if f.escaped {
        with_top(m, FrameModel { cur: f.cur.push(c), escaped: false, ..f })
    } else if c == '\\' {
        with_top(m, FrameModel { cur: f.cur.push(c), escaped: true, ..f })
    } else if c == '{' {
        if f.depth >= usize::MAX {
            failed(Fault::TooDeep)
        } else {
            with_top(m, FrameModel { cur: f.cur.push(c), depth: f.depth + 1, ..f })
        }
    } else if c == '}' {
        if f.depth <= 1 {
            close_group(m, f)
        } else {
            with_top(m, FrameModel { cur: f.cur.push(c), depth: (f.depth - 1) as nat, ..f })
        }
    } else {
        with_top(m, FrameModel { cur: f.cur.push(c), ..f })
    }
}

/// The top frame `f` reads `c`.
pub open spec fn on_char(m: EngineModel, f: FrameModel, c: char) -> EngineModel {
    match f.mode {
        Mode::Text => {
            if c == '\\' {
                with_top(m, FrameModel { mode: Mode::Backslash, ..f })
            } else {
                with_top(m, FrameModel { output: f.output.push(c), ..f })
            }
        },
        Mode::Backslash => {
            if is_special(c) {
                with_top(m, FrameModel { output: f.output.push(c), mode: Mode::Text, ..f })
            } else if alphanumeric(c) {
                with_top(m, FrameModel { name: seq![c], mode: Mode::Name, ..f })
            } else {
                with_top(
                    m,
                    FrameModel { output: f.output + seq!['\\', c], mode: Mode::Text, ..f },
                )
            }
        },
        Mode::Name => {
            if alphanumeric(c) {
                with_top(m, FrameModel { name: f.name.push(c), ..f })
            } else if c == '{' {
                let form = form_of(f.name);
                if form == Form::Custom && !m.table.contains_key(f.name) {
                    failed(Fault::UnknownMacro)
                } else {
                    with_top(
                        m,
                        FrameModel {
                            mode: Mode::Arg,
                            form,
                            done: seq![],
                            cur: seq![],
                            depth: 1,
                            escaped: false,
                            ..f
                        },
                    )
                }
            } else {
                failed(Fault::BadName)
            }
        },
        Mode::Gap => {
            if c == '{' {
                with_top(m, FrameModel { mode: Mode::Arg, cur: seq![], depth: 1, escaped: false, ..f })
            } else {
                failed(Fault::BadArgument)
            }
        },
        Mode::Arg => on_arg(m, f, c),
    }
}

/// The top frame `f` has no input left. In text mode (or after a lone trailing
/// backslash, which is kept) its output is the result; a frame below receives it
/// behind the frame's `after` text.
pub open spec fn finish(m: EngineModel, f: FrameModel) -> EngineModel {
    let out = if f.mode == Mode::Backslash { f.output.push('\\') } else { f.output };
    let n = m.frames.len();
    if f.mode != Mode::Text && f.mode != Mode::Backslash {
        failed(Fault::Unterminated)
    } else if n == 1 {
        EngineModel {
            frames: seq![FrameModel { output: out, mode: Mode::Text, ..f }],
            status: Status::Done,
            ..m
        }
    } else {
        let p = m.frames[n - 2];
        EngineModel {
            frames: m.frames.drop_last().update(
                n - 2,
                FrameModel { input: f.after + out + p.input, ..p },
            ),
            ..m
        }
    }
}

/// One step of the engine: the top frame reads one character, or finishes.
/// An engine that is not running stays as it is.
pub open spec fn step(m: EngineModel) -> EngineModel {
    if m.status != Status::Running || m.frames.len() == 0 {
        m
    } else {
        let f = m.frames.last();
        if f.input.len() == 0 {
            finish(m, f)
        } else {
            let f1 = FrameModel { input: f.input.drop_first(), ..f };
            on_char(with_top(m, f1), f1, f.input[0])
        }
    }
}

/// The engine after `n` steps.
pub open spec fn run_steps(m: EngineModel, n: nat) -> EngineModel
    decreases n,
{
    if n == 0 {
        m
    } else {
        run_steps(step(m), (n - 1) as nat)
    }
}

/// The result of the run: the root frame's output once the engine is done.
pub open spec fn result_of(m: EngineModel) -> Option<Seq<char>> {
    if m.status == Status::Done && m.frames.len() > 0 {
        Some(m.frames[0].output)
    } else {
        None
    }
}

/// Puts `t` in front of `q`, so that its first character is popped first.
fn push_front_text(q: &mut VecDeque<char>, t: &Vec<char>)
    ensures
        final(q)@ == t@ + old(q)@,
{
    let ghost q0 = q@;
    let mut i: usize = t.len();
    while i > 0
        invariant
            i <= t.len(),
            q@ == t@.subrange(i as int, t.len() as int) + q0,
        decreases i,
    {
        i = i - 1;
        q.push_front(t[i]);
        assert(q@ =~= t@.subrange(i as int, t.len() as int) + q0);
    }
    assert(t@.subrange(0, t.len() as int) =~= t@);
}

/// Appends `t` to `out`.
fn append_text(out: &mut Vec<char>, t: &Vec<char>)
    ensures
        final(out)@ == old(out)@ + t@,
{
    let ghost o0 = out@;
    let mut i: usize = 0;
    while i < t.len()
        invariant
            i <= t.len(),
            out@ == o0 + t@.subrange(0, i as int),
        decreases t.len() - i,
    {
        out.push(t[i]);
        i = i + 1;
        assert(out@ =~= o0 + t@.subrange(0, i as int));
    }
    assert(t@.subrange(0, t.len() as int) =~= t@);
}

/// The text of `body` with each unescaped `#` replaced by `arg`.
pub fn substitute(body: &Vec<char>, arg: &Vec<char>) -> (r: Vec<char>)
    ensures
        r@ == substituted(body@, arg@, false),
{
    let mut out: Vec<char> = Vec::new();
    let mut escaped = false;
    let mut i: usize = 0;
    assert(body@.skip(0) =~= body@);
    while i < body.len()
        invariant
            i <= body.len(),
            out@ + substituted(body@.skip(i as int), arg@, escaped) == substituted(body@, arg@, false),
        decreases body.len() - i,
    {
        let c = body[i];
        let ghost before = out@;
        let ghost e0 = escaped;
        assert(body@.skip(i as int).drop_first() =~= body@.skip(i + 1));
        if escaped {
            out.push(c);
            escaped = false;
            assert(out@ + substituted(body@.skip(i + 1), arg@, escaped) =~= before + substituted(body@.skip(i as int), arg@, e0));
        } else if c == '\\' {
            out.push(c);
            escaped = true;
            assert(out@ + substituted(body@.skip(i + 1), arg@, escaped) =~= before + substituted(body@.skip(i as int), arg@, e0));
        } else if c == '#' {
            append_text(&mut out, arg);
            assert(out@ + substituted(body@.skip(i + 1), arg@, escaped) =~= before + substituted(body@.skip(i as int), arg@, e0));
        } else {
            out.push(c);
            assert(out@ + substituted(body@.skip(i + 1), arg@, escaped) =~= before + substituted(body@.skip(i as int), arg@, e0));
        }
        i = i + 1;
    }
    assert(body@.skip(i as int) =~= seq![]);
    assert(out@ + seq![] =~= out@);
    out
}

/// The form a macro name selects.
pub fn classify(name: &Vec<char>) -> (r: Form)
    ensures
        r == form_of(name@),
{
    let n = name.len();
    if n == 3 && name[0] == 'd' && name[1] == 'e' && name[2] == 'f' {
        assert(name@ =~= seq!['d', 'e', 'f']);
        return Form::Def;
    }
    if n == 5 && name[0] == 'u' && name[1] == 'n' && name[2] == 'd' && name[3] == 'e' && name[4] == 'f' {
        assert(name@ =~= seq!['u', 'n', 'd', 'e', 'f']);
        return Form::Undef;
    }
    if n == 2 && name[0] == 'i' && name[1] == 'f' {
        assert(name@ =~= seq!['i', 'f']);
        return Form::If;
    }
    if n == 5 && name[0] == 'i' && name[1] == 'f' && name[2] == 'd' && name[3] == 'e' && name[4] == 'f' {
        assert(name@ =~= seq!['i', 'f', 'd', 'e', 'f']);
        return Form::IfDef;
    }
    if n == 11 && name[0] == 'e' && name[1] == 'x' && name[2] == 'p' && name[3] == 'a' && name[4] == 'n'
        && name[5] == 'd' && name[6] == 'a' && name[7] == 'f' && name[8] == 't' && name[9] == 'e'
        && name[10] == 'r' {
        assert(name@ =~= seq!['e', 'x', 'p', 'a', 'n', 'd', 'a', 'f', 't', 'e', 'r']);
        return Form::ExpandAfter;
    }
    if n == 7 && name[0] == 'i' && name[1] == 'n' && name[2] == 'c' && name[3] == 'l' && name[4] == 'u'
        && name[5] == 'd' && name[6] == 'e' {
        assert(name@ =~= seq!['i', 'n', 'c', 'l', 'u', 'd', 'e']);
        return Form::FileInput;
    }
    proof {
        if name@ == seq!['d', 'e', 'f'] { assert(name@[0] == 'd' && name@[1] == 'e' && name@[2] == 'f'); }
        if name@ == seq!['u', 'n', 'd', 'e', 'f'] { assert(name@[0] == 'u' && name@[1] == 'n' && name@[2] == 'd' && name@[3] == 'e' && name@[4] == 'f'); }
        if name@ == seq!['i', 'f'] { assert(name@[0] == 'i' && name@[1] == 'f'); }
        if name@ == seq!['i', 'f', 'd', 'e', 'f'] { assert(name@[0] == 'i' && name@[1] == 'f' && name@[2] == 'd' && name@[3] == 'e' && name@[4] == 'f'); }
        let ea = seq!['e', 'x', 'p', 'a', 'n', 'd', 'a', 'f', 't', 'e', 'r'];
        if name@ == ea { assert(name@[0] == ea[0] && name@[1] == ea[1] && name@[2] == ea[2] && name@[3] == ea[3] && name@[4] == ea[4] && name@[5] == ea[5] && name@[6] == ea[6] && name@[7] == ea[7] && name@[8] == ea[8] && name@[9] == ea[9] && name@[10] == ea[10]); }
        let fi = seq!['i', 'n', 'c', 'l', 'u', 'd', 'e'];
        if name@ == fi { assert(name@[0] == fi[0] && name@[1] == fi[1] && name@[2] == fi[2] && name@[3] == fi[3] && name@[4] == fi[4] && name@[5] == fi[5] && name@[6] == fi[6]); }
    }
    Form::Custom
}

/// The number of argument groups each form takes.
fn arity_of(form: Form) -> (r: usize)
    ensures
        r == arity(form),
{
    match form {
        Form::Def => 2,
        Form::Undef => 1,
        Form::If => 3,
        Form::IfDef => 3,
        Form::ExpandAfter => 2,
        Form::FileInput => 1,
        Form::Custom => 1,
    }
}

/// One level of expansion, as the engine holds it; the front of `input` is the
/// next character to read.
pub struct Frame {
    input: VecDeque<char>,
    output: Vec<char>,
    mode: Mode,
    form: Form,
    name: Vec<char>,
    done: Vec<Vec<char>>,
    cur: Vec<char>,
    depth: usize,
    escaped: bool,
    after: Vec<char>,
}

impl View for Frame {
    type V = FrameModel;

    closed spec fn view(&self) -> FrameModel {
        FrameModel {
            input: self.input@,
            output: self.output@,
            mode: self.mode,
            form: self.form,
            name: self.name@,
            done: self.done@.map_values(|v: Vec<char>| v@),
            cur: self.cur@,
            depth: self.depth as nat,
            escaped: self.escaped,
            after: self.after@,
        }
    }
}

impl Frame {
    /// A construct being read never holds more closed groups than its form takes.
    pub closed spec fn wf(&self) -> bool {
        (self.mode == Mode::Arg || self.mode == Mode::Gap) ==> self.done.len() < arity(self.form)
    }

    fn fresh(input: VecDeque<char>, after: Vec<char>) -> (r: Frame)
        ensures
            r.wf(),
            r@ == fresh_frame(input@, after@),
    {
        let r = Frame {
            input,
            output: Vec::new(),
            mode: Mode::Text,
            form: Form::Custom,
            name: Vec::new(),
            done: Vec::new(),
            cur: Vec::new(),
            depth: 0,
            escaped: false,
            after,
        };
        assert(r@.done =~= Seq::<Seq<char>>::empty());
        r
    }
}

/// The expansion engine: a stack of frames over one shared macro table.
pub struct Engine {
    top: Frame,
    parents: Vec<Frame>,
    table: MacroTable,
    status: Status,
    file: Vec<char>,
}

/// The views of the frames below the top one.
pub closed spec fn below(parents: Seq<Frame>) -> Seq<FrameModel> {
    parents.map_values(|f: Frame| f@)
}

impl View for Engine {
    type V = EngineModel;

    closed spec fn view(&self) -> EngineModel {
        match self.status {
            Status::Failed(e) => failed(e),
            _ => EngineModel {
                frames: below(self.parents@).push(self.top@),
                table: self.table@,
                status: self.status,
                file: self.file@,
            },
        }
    }
}

proof fn lemma_replace_last(ps: Seq<FrameModel>, a: FrameModel, b: FrameModel)
    ensures
        ps.push(a).update(ps.len() as int, b) == ps.push(b),
{
    assert(ps.push(a).update(ps.len() as int, b) =~= ps.push(b));
}

proof fn lemma_with_top_twice(m: EngineModel, a: FrameModel)
    requires
        m.frames.len() >= 1,
    ensures
        forall|b: FrameModel| #[trigger] with_top(with_top(m, a), b) == with_top(m, b),
{
    assert forall|b: FrameModel| #[trigger] with_top(with_top(m, a), b) == with_top(m, b) by {
        assert(with_top(with_top(m, a), b).frames =~= with_top(m, b).frames);
    }
}

proof fn lemma_below_push(ps: Seq<Frame>, f: Frame)
    ensures
        below(ps.push(f)) == below(ps).push(f@),
{
    assert(below(ps.push(f)) =~= below(ps).push(f@));
}

proof fn lemma_below_drop_last(ps: Seq<Frame>)
    requires
        ps.len() >= 1,
    ensures
        below(ps.drop_last()) == below(ps).drop_last(),
{
    assert(below(ps.drop_last()) =~= below(ps).drop_last());
}

impl Engine {
    /// The table is well formed and every frame is.
    pub closed spec fn wf(&self) -> bool {
        &&& self.table.wf()
        &&& self.top.wf()
        &&& forall|i: int| 0 <= i < self.parents.len() ==> (#[trigger] self.parents@[i]).wf()
        &&& self.status == Status::Done ==> self.parents.len() == 0
    }

    /// Where the run stands.
    pub fn status(&self) -> (r: Status)
        ensures
            r == self@.status,
    {
        self.status
    }

    /// Whether more steps are to be taken.
    pub fn is_running(&self) -> (r: bool)
        ensures
            r == (self@.status == Status::Running),
    {
        match self.status {
            Status::Running => true,
            _ => false,
        }
    }

    /// Stops the run on fault `e`.
    fn fail(&mut self, e: Fault)
        requires
            old(self).wf(),
        ensures
            final(self).wf(),
            final(self)@ == failed(e),
    {
        self.status = Status::Failed(e);
    }

    /// Puts the top frame back in text mode.
    fn reset_top(&mut self)
        requires
            old(self).wf(),
            old(self).status == Status::Running,
        ensures
            final(self).wf(),
            final(self)@ == with_top(old(self)@, reset(old(self).top@)),
            final(self).top@ == reset(old(self).top@),
            final(self).table == old(self).table,
            final(self).parents == old(self).parents,
            final(self).status == old(self).status,
            final(self).file == old(self).file,
    {
        self.top.mode = Mode::Text;
        self.top.name = Vec::new();
        self.top.done = Vec::new();
        self.top.cur = Vec::new();
        self.top.depth = 0;
        self.top.escaped = false;
        proof {
            assert(self.top@.done =~= Seq::<Seq<char>>::empty());
            assert(self.top@ == reset(old(self).top@));
            lemma_replace_last(below(self.parents@), old(self).top@, self.top@);
        }
    }
}

impl Engine {
    /// The top frame, in text mode, reads `c`.
    fn text_char(&mut self, c: char)
        requires
            old(self).wf(),
            old(self).status == Status::Running,
            old(self).top.mode == Mode::Text,
        ensures
            final(self).wf(),
            final(self)@ == on_char(old(self)@, old(self).top@, c),
    {
        if c == '\\' {
            self.top.mode = Mode::Backslash;
        } else {
            self.top.output.push(c);
        }
        proof {
            lemma_replace_last(below(self.parents@), old(self).top@, self.top@);
        }
    }

    /// The top frame, after a backslash, reads `c`.
    fn backslash_char(&mut self, c: char)
        requires
            old(self).wf(),
            old(self).status == Status::Running,
            old(self).top.mode == Mode::Backslash,
        ensures
            final(self).wf(),
            final(self)@ == on_char(old(self)@, old(self).top@, c),
    {
        if c == '\\' || c == '#' || c == '%' || c == '{' || c == '}' {
            self.top.output.push(c);
            self.top.mode = Mode::Text;
        } else if is_alnum(c) {
            self.top.name = Vec::new();
            self.top.name.push(c);
            self.top.mode = Mode::Name;
            assert(self.top.name@ =~= seq![c]);
        } else {
            self.top.output.push('\\');
            self.top.output.push(c);
            self.top.mode = Mode::Text;
            assert(self.top.output@ =~= old(self).top.output@ + seq!['\\', c]);
        }
        proof {
            lemma_replace_last(below(self.parents@), old(self).top@, self.top@);
        }
    }

    /// The top frame, reading a macro name, reads `c`.
    fn name_char(&mut self, c: char)
        requires
            old(self).wf(),
            old(self).status == Status::Running,
            old(self).top.mode == Mode::Name,
        ensures
            final(self).wf(),
            final(self)@ == on_char(old(self)@, old(self).top@, c),
    {
        if is_alnum(c) {
            self.top.name.push(c);
        } else if c == '{' {
            let form = classify(&self.top.name);
            if form == Form::Custom && !self.table.contains(&self.top.name) {
                self.fail(Fault::UnknownMacro);
                return;
            }
            self.top.mode = Mode::Arg;
            self.top.form = form;
            self.top.done = Vec::new();
            self.top.cur = Vec::new();
            self.top.depth = 1;
            self.top.escaped = false;
            assert(self.top@.done =~= Seq::<Seq<char>>::empty());
        } else {
            self.fail(Fault::BadName);
            return;
        }
        proof {
            lemma_replace_last(below(self.parents@), old(self).top@, self.top@);
        }
    }

    /// The top frame, between two groups, reads `c`.
    fn gap_char(&mut self, c: char)
        requires
            old(self).wf(),
            old(self).status == Status::Running,
            old(self).top.mode == Mode::Gap,
        ensures
            final(self).wf(),
            final(self)@ == on_char(old(self)@, old(self).top@, c),
    {
        if c == '{' {
            self.top.mode = Mode::Arg;
            self.top.cur = Vec::new();
            self.top.depth = 1;
            self.top.escaped = false;
        } else {
            self.fail(Fault::BadArgument);
            return;
        }
        proof {
            lemma_replace_last(below(self.parents@), old(self).top@, self.top@);
        }
    }
}

impl Engine {
    /// The top frame has captured every group of its construct: carry it out.
    fn complete(&mut self)
        requires
            old(self).wf(),
            old(self).status == Status::Running,
            old(self).top.done.len() == arity(old(self).top.form),
        ensures
            final(self).wf(),
            final(self)@ == complete(old(self)@, old(self).top@, old(self).top@.done),
    {
        let ghost args = self.top@.done;
        let ghost f = self.top@;
        let ghost ps = below(self.parents@);
        proof {
            lemma_replace_last(ps, f, reset(f));
        }
        match self.top.form {
            Form::Def => {
                let body = self.top.done.pop().unwrap();
                let name = self.top.done.pop().unwrap();
                assert(body@ == args[1]);
                assert(name@ == args[0]);
                if name.len() == 0 {
                    self.fail(Fault::EmptyName);
                    return;
                }
                if !self.table.insert(name, body) {
                    self.fail(Fault::AlreadyDefined);
                    return;
                }
                self.reset_top();
                assert(self.top@ == reset(f));
            },
            Form::Undef => {
                let name = self.top.done.pop().unwrap();
                assert(name@ == args[0]);
                if name.len() == 0 {
                    self.fail(Fault::EmptyName);
                    return;
                }
                if !self.table.remove(&name) {
                    self.fail(Fault::NotDefined);
                    return;
                }
                self.reset_top();
                assert(self.top@ == reset(f));
            },
            Form::If | Form::IfDef => {
                let a2 = self.top.done.pop().unwrap();
                let a1 = self.top.done.pop().unwrap();
                let a0 = self.top.done.pop().unwrap();
                assert(a0@ == args[0] && a1@ == args[1] && a2@ == args[2]);
                let pick = match self.top.form {
                    Form::If => a0.len() > 0,
                    _ => self.table.contains(&a0),
                };
                self.reset_top();
                if pick {
                    push_front_text(&mut self.top.input, &a1);
                } else {
                    push_front_text(&mut self.top.input, &a2);
                }
                proof {
                    lemma_replace_last(ps, f, self.top@);
                }
            },
            Form::ExpandAfter => {
                let a1 = self.top.done.pop().unwrap();
                let a0 = self.top.done.pop().unwrap();
                assert(a0@ == args[0] && a1@ == args[1]);
                self.reset_top();
                let mut q: VecDeque<char> = VecDeque::new();
                push_front_text(&mut q, &a1);
                assert(q@ =~= a1@);
                let mut child = Frame::fresh(q, a0);
                std::mem::swap(&mut child, &mut self.top);
                let ghost prev = self.parents@;
                self.parents.push(child);
                proof {
                    lemma_below_push(prev, child);
                }
            },
            Form::FileInput => {
                let a0 = self.top.done.pop().unwrap();
                assert(a0@ == args[0]);
                self.reset_top();
                self.file = a0;
                self.status = Status::NeedFile;
            },
            Form::Custom => {
                let a0 = self.top.done.pop().unwrap();
                assert(a0@ == args[0]);
                let text = match self.table.get(&self.top.name) {
                    Some(b) => substitute(b, &a0),
                    None => {
                        self.fail(Fault::UnknownMacro);
                        return;
                    },
                };
                self.reset_top();
                push_front_text(&mut self.top.input, &text);
                proof {
                    lemma_replace_last(ps, f, self.top@);
                }
            },
        }
    }

    /// The top frame closes the group it is capturing.
    fn close_group(&mut self)
        requires
            old(self).wf(),
            old(self).status == Status::Running,
            old(self).top.mode == Mode::Arg,
        ensures
            final(self).wf(),
            final(self)@ == close_group(old(self)@, old(self).top@),
    {
        let ghost m = self@;
        let ghost f = self.top@;
        let ghost ps = below(self.parents@);
        let mut cur: Vec<char> = Vec::new();
        std::mem::swap(&mut cur, &mut self.top.cur);
        self.top.done.push(cur);
        assert(self.top@.done =~= f.done.push(f.cur));
        if self.top.done.len() < arity_of(self.top.form) {
            self.top.mode = Mode::Gap;
            self.top.depth = 0;
            proof {
                lemma_replace_last(ps, f, self.top@);
            }
        } else {
            self.top.mode = Mode::Text;
            proof {
                lemma_replace_last(ps, f, self.top@);
                lemma_with_top_twice(m, self.top@);
                assert(reset(self.top@) == reset(f));
            }
            self.complete();
        }
    }

    /// The top frame, capturing a group, reads `c`.
    fn arg_char(&mut self, c: char)
        requires
            old(self).wf(),
            old(self).status == Status::Running,
            old(self).top.mode == Mode::Arg,
        ensures
            final(self).wf(),
            final(self)@ == on_char(old(self)@, old(self).top@, c),
    {
        let bare = self.top.done.len() == 0 && match self.top.form {
            Form::Def | Form::Undef | Form::IfDef => true,
            _ => false,
        };
        if bare {
            if is_alnum(c) {
                self.top.cur.push(c);
            } else if c == '}' {
                self.close_group();
                return;
            } else {
                self.fail(Fault::BadArgument);
                return;
            }
        } else if self.top.escaped {
            self.top.cur.push(c);
            self.top.escaped = false;
        } else if c == '\\' {
            self.top.cur.push(c);
            self.top.escaped = true;
        } else if c == '{' {
            if self.top.depth == usize::MAX {
                self.fail(Fault::TooDeep);
                return;
            }
            self.top.depth = self.top.depth + 1;
            self.top.cur.push(c);
        } else if c == '}' {
            if self.top.depth <= 1 {
                self.close_group();
                return;
            }
            self.top.depth = self.top.depth - 1;
            self.top.cur.push(c);
        } else {
            self.top.cur.push(c);
        }
        proof {
            lemma_replace_last(below(self.parents@), old(self).top@, self.top@);
        }
    }
}

/// `m` after the file it asked for turned out to hold `text`: the cleaned text is
/// read next, and the run goes on.
pub open spec fn resumed(m: EngineModel, text: Seq<char>) -> EngineModel {
    let f = m.frames.last();
    EngineModel {
        status: Status::Running,
        file: seq![],
        ..with_top(m, FrameModel { input: stripped(text) + f.input, ..f })
    }
}

proof fn lemma_run_steps_succ(m: EngineModel, n: nat)
    ensures
        run_steps(m, n + 1) == step(run_steps(m, n)),
    decreases n,
{
    assert(run_steps(m, n + 1) == run_steps(step(m), n));
    if n > 0 {
        lemma_run_steps_succ(step(m), (n - 1) as nat);
        assert((n - 1) as nat + 1 == n);
        assert(run_steps(m, n) == run_steps(step(m), (n - 1) as nat));
    } else {
        assert(run_steps(step(m), 0) == step(m));
    }
}

/// An engine that has stopped stays as it is, however many steps follow.
pub proof fn lemma_halted_stays(m: EngineModel, n: nat)
    requires
        m.status != Status::Running,
    ensures
        run_steps(m, n) == m,
    decreases n,
{
    if n > 0 {
        lemma_halted_stays(step(m), (n - 1) as nat);
    }
}

/// Taking `a` steps and then `b` steps is taking `a + b` steps.
pub proof fn lemma_run_steps_add(m: EngineModel, a: nat, b: nat)
    ensures
        run_steps(m, a + b) == run_steps(run_steps(m, a), b),
    decreases a,
{
    if a > 0 {
        lemma_run_steps_add(step(m), (a - 1) as nat, b);
        assert((a + b - 1) as nat == (a - 1) as nat + b);
    }
}

impl Engine {
    /// The top frame has no input left: hand its output on, or finish the run.
    fn finish_top(&mut self)
        requires
            old(self).wf(),
            old(self).status == Status::Running,
            old(self).top.input@.len() == 0,
        ensures
            final(self).wf(),
            final(self)@ == finish(old(self)@, old(self).top@),
    {
        let ghost f = self.top@;
        let ghost prev = self.parents@;
        match self.top.mode {
            Mode::Text => {},
            Mode::Backslash => {
                self.top.output.push('\\');
                self.top.mode = Mode::Text;
            },
            _ => {
                self.fail(Fault::Unterminated);
                return;
            },
        }
        if self.parents.len() == 0 {
            self.status = Status::Done;
            proof {
                assert(prev =~= Seq::<Frame>::empty());
                assert(below(prev) =~= Seq::<FrameModel>::empty());
                assert(below(self.parents@).push(self.top@) =~= seq![self.top@]);
            }
        } else {
            let mut finished = self.parents.pop().unwrap();
            std::mem::swap(&mut finished, &mut self.top);
            let mut text = finished.after;
            append_text(&mut text, &finished.output);
            let ghost pin = self.top.input@;
            push_front_text(&mut self.top.input, &text);
            proof {
                lemma_below_drop_last(prev);
                let n = prev.len() + 1;
                let pf = below(prev).push(f);
                assert(pf[n - 2] == below(prev)[n - 2]);
                assert(below(prev)[n - 2] == prev[n - 2]@);
                assert(pf.drop_last() =~= below(prev));
                assert(below(self.parents@).push(self.top@) =~= pf.drop_last().update(
                    n - 2,
                    FrameModel { input: f.after + (if f.mode == Mode::Backslash { f.output.push('\\') } else { f.output }) + pin, ..pf[n - 2] },
                ));
            }
        }
    }

    /// Takes one step of the run.
    pub fn step(&mut self)
        requires
            old(self).wf(),
        ensures
            final(self).wf(),
            final(self)@ == step(old(self)@),
    {
        if !self.is_running() {
            return;
        }
        if self.top.input.len() == 0 {
            self.finish_top();
            return;
        }
        let ghost f = self.top@;
        let c = self.top.input.pop_front().unwrap();
        proof {
            lemma_replace_last(below(self.parents@), f, self.top@);
            assert(self.top@ == FrameModel { input: f.input.drop_first(), ..f });
        }
        match self.top.mode {
            Mode::Text => self.text_char(c),
            Mode::Backslash => self.backslash_char(c),
            Mode::Name => self.name_char(c),
            Mode::Gap => self.gap_char(c),
            Mode::Arg => self.arg_char(c),
        }
    }
}

/// The texts held by a list of character vectors.
pub open spec fn texts_of(v: Seq<Vec<char>>) -> Seq<Seq<char>> {
    v.map_values(|s: Vec<char>| s@)
}

impl Engine {
    /// An engine over the cleaned sources, the first source read first, with an
    /// empty macro table.
    pub fn new(sources: &Vec<Vec<char>>) -> (r: Engine)
        ensures
            r.wf(),
            r@ == start(stripped_all(texts_of(sources@)), Map::empty()),
    {
        let ghost ss = texts_of(sources@);
        let mut all: Vec<char> = Vec::new();
        let mut i: usize = 0;
        assert(ss.take(0) =~= Seq::<Seq<char>>::empty());
        while i < sources.len()
            invariant
                i <= sources.len(),
                ss == texts_of(sources@),
                all@ == stripped_all(ss.take(i as int)),
            decreases sources.len() - i,
        {
            let cleaned = strip_comments(&sources[i]);
            append_text(&mut all, &cleaned);
            proof {
                assert(ss.take(i + 1).drop_last() =~= ss.take(i as int));
                assert(ss.take(i + 1).last() == sources@[i as int]@);
            }
            i = i + 1;
        }
        assert(ss.take(i as int) =~= ss);
        Engine::from_cleaned(&all)
    }

    /// An engine over text that is already cleaned of comments, with an empty
    /// macro table.
    pub fn from_cleaned(text: &Vec<char>) -> (r: Engine)
        ensures
            r.wf(),
            r@ == start(text@, Map::empty()),
    {
        let mut q: VecDeque<char> = VecDeque::new();
        push_front_text(&mut q, text);
        assert(q@ =~= text@);
        let r = Engine {
            top: Frame::fresh(q, Vec::new()),
            parents: Vec::new(),
            table: MacroTable::new(),
            status: Status::Running,
            file: Vec::new(),
        };
        assert(below(r.parents@) =~= Seq::<FrameModel>::empty());
        assert(r@.frames =~= seq![fresh_frame(text@, seq![])]);
        r
    }

    /// The path that the run waits for.
    pub fn requested_file(&self) -> (r: &Vec<char>)
        requires
            self@.status == Status::NeedFile,
        ensures
            r@ == self@.file,
    {
        &self.file
    }

    /// Supplies the text of the file that the run waits for; it is cleaned of
    /// comments and read next.
    pub fn resume_with_file(&mut self, text: &Vec<char>)
        requires
            old(self).wf(),
            old(self)@.status == Status::NeedFile,
        ensures
            final(self).wf(),
            final(self)@ == resumed(old(self)@, text@),
    {
        let cleaned = strip_comments(text);
        push_front_text(&mut self.top.input, &cleaned);
        self.status = Status::Running;
        self.file = Vec::new();
        proof {
            lemma_replace_last(below(self.parents@), old(self).top@, self.top@);
        }
    }

    /// Records that the file the run waits for cannot be read.
    pub fn file_unreadable(&mut self)
        requires
            old(self).wf(),
            old(self)@.status == Status::NeedFile,
        ensures
            final(self).wf(),
            final(self)@ == failed(Fault::Unreadable),
    {
        self.fail(Fault::Unreadable);
    }

    /// The expanded text, once the run is done; nothing before, and nothing after a
    /// fault.
    pub fn output(&self) -> (r: Option<&Vec<char>>)
        requires
            self.wf(),
        ensures
            r is Some <==> result_of(self@) is Some,
            r matches Some(o) ==> result_of(self@) == Some(o@),
    {
        match self.status {
            Status::Done => {
                assert(below(self.parents@) =~= Seq::<FrameModel>::empty());
                Some(&self.top.output)
            },
            _ => None,
        }
    }
}

/// Runs `engine` for at most `fuel` steps, stopping early once it is done, has
/// failed, or waits for a file. A run that never ends (a macro that expands to
/// itself) keeps `Running` for any fuel.
pub fn state_machine(engine: &mut Engine, fuel: u64) -> (r: Status)
    requires
        old(engine).wf(),
    ensures
        final(engine).wf(),
        final(engine)@ == run_steps(old(engine)@, fuel as nat),
        r == final(engine)@.status,
{
    let ghost m0 = engine@;
    let mut i: u64 = 0;
    while i < fuel && engine.is_running()
        invariant
            engine.wf(),
            i <= fuel,
            engine@ == run_steps(m0, i as nat),
        decreases fuel - i,
    {
        engine.step();
        proof {
            lemma_run_steps_succ(m0, i as nat);
        }
        i = i + 1;
    }
    proof {
        lemma_run_steps_add(m0, i as nat, (fuel - i) as nat);
        if i < fuel {
            lemma_halted_stays(engine@, (fuel - i) as nat);
        }
        assert(i as nat + (fuel - i) as nat == fuel as nat);
    }
    engine.status()
}

} // verus!

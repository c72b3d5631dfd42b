use vstd::prelude::*;

use crate::engine::{
    failed, result_of, run_steps, start, step, with_top, EngineModel, FrameModel, Mode, Status,
    lemma_halted_stays, lemma_run_steps_add,
};
use crate::text::{scan_step, strip_from, stripped, Scan};

verus! {

proof fn lemma_strip_plain(s: Seq<char>)
    requires
        forall|i: int| 0 <= i < s.len() ==> s[i] != '\\' && s[i] != '%',
    ensures
        strip_from(Scan::Plain, s) == s,
    decreases s.len(),
{
    if s.len() > 0 {
        lemma_strip_plain(s.drop_first());
        assert(seq![s[0]] + s.drop_first() =~= s);
    }
}

/// A lone engine frame in text mode copies input without backslashes to its output.
proof fn lemma_run_plain(m: EngineModel)
    requires
        m.status == Status::Running,
        m.frames.len() == 1,
        m.frames[0].mode == Mode::Text,
        forall|i: int| 0 <= i < m.frames[0].input.len() ==> m.frames[0].input[i] != '\\',
    ensures
        result_of(run_steps(m, m.frames[0].input.len() + 1)) == Some(
            m.frames[0].output + m.frames[0].input,
        ),
    decreases m.frames[0].input.len(),
{
    let f = m.frames[0];
    let n = f.input.len();
    assert(m.frames.last() == f);
    assert(run_steps(m, n + 1) == run_steps(step(m), n));
    if n == 0 {
        assert(f.output + f.input =~= f.output);
        assert(run_steps(step(m), 0) == step(m));
    } else {
        let c = f.input[0];
        let f1 = FrameModel { input: f.input.drop_first(), ..f };
        let m2 = step(m);
        assert(m2 == with_top(with_top(m, f1), FrameModel { output: f.output.push(c), ..f1 }));
        assert(m2.frames =~= seq![FrameModel { output: f.output.push(c), ..f1 }]);
        lemma_run_plain(m2);
        assert(f.output.push(c) + f.input.drop_first() =~= f.output + f.input);
        assert((n - 1) as nat + 1 == n);
    }
}

/// Text without backslashes and percent signs is left as it is: cleaning keeps
/// it, and the engine, whatever its macro table, returns it unchanged.
pub proof fn law_plain_text_unchanged(s: Seq<char>, table: Map<Seq<char>, Seq<char>>)
    requires
        forall|i: int| 0 <= i < s.len() ==> s[i] != '\\' && s[i] != '%',
    ensures
        stripped(s) == s,
        result_of(run_steps(start(stripped(s), table), s.len() + 1)) == Some(s),
{
    lemma_strip_plain(s);
    let m = start(s, table);
    lemma_run_plain(m);
    assert(seq![] + s =~= s);
}

/// Expanding a result again, with an empty macro table, gives it back unchanged,
/// provided it holds no backslash (a result such as `\x`, from the input `\\x`,
/// would be read as a macro name).
pub proof fn law_reexpansion_is_identity(s: Seq<char>, table: Map<Seq<char>, Seq<char>>, n: nat)
    requires
        result_of(run_steps(start(s, table), n)) is Some,
        forall|i: int|
            0 <= i < result_of(run_steps(start(s, table), n))->0.len()
                ==> result_of(run_steps(start(s, table), n))->0[i] != '\\',
    ensures
        ({
            let out = result_of(run_steps(start(s, table), n))->0;
            result_of(run_steps(start(out, Map::empty()), out.len() + 1)) == Some(out)
        }),
{
    let out = result_of(run_steps(start(s, table), n))->0;
    lemma_run_plain(start(out, Map::empty()));
    assert(seq![] + out =~= out);
}

/// An escaped percent sign, where a backslash starts an escape, becomes a literal
/// `%` and starts no comment: cleaning goes on in plain text after it.
pub proof fn law_escaped_percent(st: Scan, rest: Seq<char>)
    requires
        st == Scan::Plain || st == Scan::AfterComment,
    ensures
        strip_from(st, seq!['\\', '%'] + rest) == seq!['%'] + stripped(rest),
{
    let x = seq!['\\', '%'] + rest;
    assert(x[0] == '\\');
    assert(x.drop_first()[0] == '%');
    assert(x.drop_first().drop_first() =~= rest);
    assert(strip_from(st, x) == scan_step(st, '\\').0 + strip_from(Scan::Escape, x.drop_first()));
    assert(strip_from(Scan::Escape, x.drop_first()) == seq!['%'] + strip_from(Scan::Plain, rest));
    assert(seq![] + strip_from(Scan::Escape, x.drop_first()) =~= strip_from(Scan::Escape, x.drop_first()));
}

proof fn lemma_comment_body(c: Seq<char>, rest: Seq<char>)
    requires
        forall|i: int| 0 <= i < c.len() ==> c[i] != '\n',
    ensures
        strip_from(Scan::Comment, c + seq!['\n'] + rest) == strip_from(Scan::AfterComment, rest),
    decreases c.len(),
{
    let x = c + seq!['\n'] + rest;
    if c.len() == 0 {
        assert(x[0] == '\n');
        assert(x.drop_first() =~= rest);
        assert(seq![] + strip_from(Scan::AfterComment, rest) =~= strip_from(Scan::AfterComment, rest));
    } else {
        assert(x[0] == c[0]);
        assert(x.drop_first() =~= c.drop_first() + seq!['\n'] + rest);
        lemma_comment_body(c.drop_first(), rest);
        assert(seq![] + strip_from(Scan::Comment, x.drop_first()) =~= strip_from(Scan::Comment, x.drop_first()));
    }
}

proof fn lemma_indent(w: Seq<char>, rest: Seq<char>)
    requires
        forall|i: int| 0 <= i < w.len() ==> w[i] == ' ' || w[i] == '\t',
    ensures
        strip_from(Scan::AfterComment, w + rest) == strip_from(Scan::AfterComment, rest),
    decreases w.len(),
{
    if w.len() > 0 {
        let x = w + rest;
        assert(x[0] == w[0]);
        assert(x.drop_first() =~= w.drop_first() + rest);
        lemma_indent(w.drop_first(), rest);
        assert(seq![] + strip_from(Scan::AfterComment, x.drop_first()) =~= strip_from(Scan::AfterComment, x.drop_first()));
    } else {
        assert(w + rest =~= rest);
    }
}

/// A `%` comment is dropped through the end of its line, together with the newline
/// and the spaces and tabs that begin the next line.
pub proof fn law_comment_dropped(c: Seq<char>, w: Seq<char>, rest: Seq<char>)
    requires
        forall|i: int| 0 <= i < c.len() ==> c[i] != '\n',
        forall|i: int| 0 <= i < w.len() ==> w[i] == ' ' || w[i] == '\t',
        rest.len() == 0 || (rest[0] != ' ' && rest[0] != '\t' && rest[0] != '%' && rest[0] != '\\'),
    ensures
        stripped(seq!['%'] + c + seq!['\n'] + w + rest) == stripped(rest),
{
    let x = seq!['%'] + c + seq!['\n'] + w + rest;
    assert(x[0] == '%');
    assert(x.drop_first() =~= c + seq!['\n'] + (w + rest));
    lemma_comment_body(c, w + rest);
    lemma_indent(w, rest);
    assert(seq![] + strip_from(Scan::Comment, x.drop_first()) =~= strip_from(Scan::Comment, x.drop_first()));
    if rest.len() > 0 {
        assert(strip_from(Scan::AfterComment, rest) == seq![rest[0]] + strip_from(Scan::Plain, rest.drop_first()));
    }
}

pub open spec fn clean_fault(m: EngineModel) -> bool {
    m.status is Failed ==> m == failed(m.status->0)
}

proof fn lemma_step_clean(m: EngineModel)
    requires
        clean_fault(m),
    ensures
        clean_fault(step(m)),
{
}

proof fn lemma_steps_clean(m: EngineModel, n: nat)
    requires
        clean_fault(m),
    ensures
        clean_fault(run_steps(m, n)),
    decreases n,
{
    if n > 0 {
        lemma_step_clean(m);
        lemma_steps_clean(step(m), (n - 1) as nat);
    }
}

/// Once a run fails it keeps nothing of what it read or wrote before, however
/// much valid text came first; it stays failed however many steps follow, and
/// yields no result.
pub proof fn law_fault_yields_nothing(s: Seq<char>, table: Map<Seq<char>, Seq<char>>, n: nat, k: nat)
    requires
        run_steps(start(s, table), n).status is Failed,
    ensures
        ({
            let m = run_steps(start(s, table), n);
            &&& m == failed(m.status->0)
            &&& run_steps(start(s, table), n + k) == m
            &&& result_of(run_steps(start(s, table), n + k)) is None
        }),
{
    let m = run_steps(start(s, table), n);
    lemma_steps_clean(start(s, table), n);
    lemma_run_steps_add(start(s, table), n, k);
    lemma_halted_stays(m, k);
}

} // verus!

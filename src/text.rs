use vstd::prelude::*;

verus! {

/// The four states of the comment normalizer.
#[derive(Clone, Copy, Debug, PartialEq, Eq, Structural)]
pub enum Scan {
    Plain,
    Escape,
    Comment,
    AfterComment,
}

/// What `char::is_alphanumeric` says of a character (Unicode Alphabetic or Numeric).
pub uninterp spec fn alphanumeric(c: char) -> bool;

/// Relies on `char::is_alphanumeric`: the answer depends on the character alone.
#[verifier::external_body]
pub(crate) fn is_alnum(c: char) -> (r: bool)
    ensures
        r == alphanumeric(c),
{
    c.is_alphanumeric()
}

/// One transition of the normalizer: the characters it emits and the next state.
pub open spec fn scan_step(st: Scan, c: char) -> (Seq<char>, Scan) {
    match st {
        Scan::Plain => {
            if c == '\\' {
                (seq![], Scan::Escape)
            } else if c == '%' {
                (seq![], Scan::Comment)
            } else {
                (seq![c], Scan::Plain)
            }
        },
        Scan::Escape => {
            if c == '%' {
                (seq!['%'], Scan::Plain)
            } else {
                (seq!['\\', c], Scan::Plain)
            }
        },
        Scan::Comment => {
            if c == '\n' {
                (seq![], Scan::AfterComment)
            } else {
                (seq![], Scan::Comment)
            }
        },
        Scan::AfterComment => {
            if c == '%' {
                (seq![], Scan::Comment)
            } else if c == '\\' {
                (seq![], Scan::Escape)
            } else if c == ' ' || c == '\t' {
                (seq![], Scan::AfterComment)
            } else {
                (seq![c], Scan::Plain)
            }
        },
    }
}

/// The cleaned text that the normalizer produces from `s` when it starts in state `st`.
/// A backslash still pending at the end of the text is kept.
pub open spec fn strip_from(st: Scan, s: Seq<char>) -> Seq<char>
    decreases s.len(),
{
    if s.len() == 0 {
        if st == Scan::Escape {
            seq!['\\']
        } else {
            seq![]
        }
    } else {
        let (o, next) = scan_step(st, s[0]);
        o + strip_from(next, s.drop_first())
    }
}

/// The cleaned form of one source text.
pub open spec fn stripped(s: Seq<char>) -> Seq<char> {
    strip_from(Scan::Plain, s)
}

/// The cleaned sources, first source first.
pub open spec fn stripped_all(srcs: Seq<Seq<char>>) -> Seq<char>
    decreases srcs.len(),
{
    if srcs.len() == 0 {
        seq![]
    } else {
        stripped_all(srcs.drop_last()) + stripped(srcs.last())
    }
}

proof fn lemma_strip_unfold(st: Scan, s: Seq<char>, i: int)
    requires
        0 <= i < s.len(),
    ensures
        strip_from(st, s.skip(i)) == scan_step(st, s[i]).0 + strip_from(
            scan_step(st, s[i]).1,
            s.skip(i + 1),
        ),
{
    assert(s.skip(i).drop_first() =~= s.skip(i + 1));
}

/// Removes `%` comments and the indentation after them, and turns `\%` into `%`.
pub fn strip_comments(text: &Vec<char>) -> (r: Vec<char>)
    ensures
        r@ == stripped(text@),
{
    let mut out: Vec<char> = Vec::new();
    let mut st = Scan::Plain;
    let mut i: usize = 0;
    assert(text@.skip(0) =~= text@);
    while i < text.len()
        invariant
            i <= text.len(),
            out@ + strip_from(st, text@.skip(i as int)) == stripped(text@),
        decreases text.len() - i,
    {
        let c = text[i];
        proof {
            lemma_strip_unfold(st, text@, i as int);
        }
        let ghost before = out@;
        let ghost st0 = st;
        match st {
            Scan::Plain => {
                if c == '\\' {
                    st = Scan::Escape;
                } else if c == '%' {
                    st = Scan::Comment;
                } else {
                    out.push(c);
                }
            },
            Scan::Escape => {
                if c != '%' {
                    out.push('\\');
                }
                out.push(c);
                st = Scan::Plain;
            },
            Scan::Comment => {
                if c == '\n' {
                    st = Scan::AfterComment;
                }
            },
            Scan::AfterComment => {
                if c == '%' {
                    st = Scan::Comment;
                } else if c == '\\' {
                    st = Scan::Escape;
                } else if c != ' ' && c != '\t' {
                    out.push(c);
                    st = Scan::Plain;
                }
            },
        }
        assert(out@ =~= before + scan_step(st0, c).0);
        assert(st == scan_step(st0, c).1);
        assert(out@ + strip_from(st, text@.skip(i + 1)) =~= before + strip_from(
            st0,
            text@.skip(i as int),
        ));
        i = i + 1;
    }
    if st == Scan::Escape {
        out.push('\\');
    }
    assert(text@.skip(i as int) =~= seq![]);
    out
}

} // verus!

//! Shell-safe quoting of file-system paths.
//!
//! When a command line is handed to an intermediate shell, a path holding
//! whitespace, a single quote or an ampersand must be wrapped in single
//! quotes, with each embedded single quote escaped as `'\''`. When the
//! process is started directly from an argument vector, as the dispatcher
//! does, no quoting is needed and the sanitized form is kept only for
//! display.

use vstd::prelude::*;

verus! {

/// Characters that make a path unsafe as a bare shell word: whitespace,
/// a single quote, or an ampersand.
pub open spec fn is_special(c: char) -> bool {
    c == ' ' || c == '\t' || c == '\n' || c == '\r' || c == '\'' || c == '&'
}

pub open spec fn needs_quoting(s: Seq<char>) -> bool {
    exists|i: int| 0 <= i < s.len() && is_special(s[i])
}

/// `s` with every single quote rewritten to `'\''`.
pub open spec fn quote_escaped(s: Seq<char>) -> Seq<char>
    decreases s.len(),
{
    if s.len() == 0 {
        Seq::<char>::empty()
    } else {
        (if s[0] == '\'' {
            seq!['\'', '\\', '\'', '\'']
        } else {
            seq![s[0]]
        }) + quote_escaped(s.drop_first())
    }
}

pub proof fn lemma_quote_escaped_concat(a: Seq<char>, b: Seq<char>)
    ensures
        quote_escaped(a + b) == quote_escaped(a) + quote_escaped(b),
    decreases a.len(),
{
    if a.len() == 0 {
        assert(a + b =~= b);
        assert(quote_escaped(a) + quote_escaped(b) =~= quote_escaped(b));
    } else {
        lemma_quote_escaped_concat(a.drop_first(), b);
        assert((a + b).drop_first() =~= a.drop_first() + b);
        assert((a + b)[0] == a[0]);
        assert(quote_escaped(a + b) =~= quote_escaped(a) + quote_escaped(b));
    }
}

/// The sanitized form of a path: unchanged when it holds no special
/// character, otherwise wrapped in single quotes with embedded quotes
/// escaped.
pub open spec fn spec_escape_path(s: Seq<char>) -> Seq<char> {
    if needs_quoting(s) {
        seq!['\''] + quote_escaped(s) + seq!['\'']
    } else {
        s
    }
}

/// Whether the path needs shell quoting.
fn contains_special(s: &str) -> (r: bool)
    ensures
        r == needs_quoting(s@),
{
    let n = s.unicode_len();
    let mut i: usize = 0;
    while i < n
        invariant
            n == s@.len(),
            0 <= i <= n,
            forall|j: int| 0 <= j < i ==> !is_special(#[trigger] s@[j]),
        decreases n - i,
    {
        let c = s.get_char(i);
        if c == ' ' || c == '\t' || c == '\n' || c == '\r' || c == '\'' || c == '&' {
            assert(is_special(s@[i as int]));
            return true;
        }
        i = i + 1;
    }
    false
}

/// Sanitize a path for inclusion in a command line.
///
/// Returns the path unchanged when it holds no whitespace, single quote or
/// ampersand; otherwise returns it wrapped in single quotes with each
/// embedded single quote escaped, safe as one shell word.
pub fn escape_path(path: &str) -> (r: String)
    ensures
        r@ == spec_escape_path(path@),
{
    if !contains_special(path) {
        return String::from_str(path);
    }
    let n = path.unicode_len();
    let mut out = String::from_str("'");
    proof {
        reveal_strlit("'");
        assert(out@ =~= seq!['\''] + quote_escaped(path@.take(0)));
    }
    let mut i: usize = 0;
    while i < n
        invariant
            n == path@.len(),
            0 <= i <= n,
            out@ == seq!['\''] + quote_escaped(path@.take(i as int)),
        decreases n - i,
    {
        let c = path.get_char(i);
        proof {
            lemma_quote_escaped_concat(path@.take(i as int), seq![path@[i as int]]);
            assert(path@.take(i + 1) =~= path@.take(i as int) + seq![path@[i as int]]);
            assert(seq![path@[i as int]].drop_first() =~= Seq::<char>::empty());
            assert(quote_escaped(Seq::<char>::empty()) =~= Seq::<char>::empty());
            assert(seq![path@[i as int]][0] == path@[i as int]);
        }
        if c == '\'' {
            out.append("'\\''");
            proof {
                reveal_strlit("'\\''");
                assert(quote_escaped(seq![path@[i as int]]) =~= seq!['\'', '\\', '\'', '\'']);
                assert(out@ =~= seq!['\''] + quote_escaped(path@.take(i + 1)));
            }
        } else {
            out.append(path.substring_char(i, i + 1));
            proof {
                assert(path@.subrange(i as int, i + 1) =~= seq![path@[i as int]]);
                assert(quote_escaped(seq![path@[i as int]]) =~= seq![path@[i as int]]);
                assert(out@ =~= seq!['\''] + quote_escaped(path@.take(i + 1)));
            }
        }
        i = i + 1;
    }
    out.append("'");
    proof {
        reveal_strlit("'");
        assert(path@.take(n as int) =~= path@);
        assert(out@ =~= spec_escape_path(path@));
    }
    out
}

} // verus!

use vstd::prelude::*;

use crate::style::{literal, pieces, Span, Tone};
use crate::text::{spaces, spaces_of};
use crate::window::{lines_of, split_lines};

verus! {

/// What textwrap's `indent` makes of `s` with `prefix`.
pub uninterp spec fn indented(s: Seq<char>, prefix: Seq<char>) -> Seq<char>;

/// Relies on textwrap's `indent`: `s` with `prefix` put before each of its
/// lines; the result depends on the two texts alone.
#[verifier::external_body]
fn indent_text(s: &str, prefix: &str) -> (r: String)
    ensures
        r@ == indented(s@, prefix@),
{
    textwrap::indent(s, prefix)
}

/// Lines one after the other.
pub open spec fn joined_lines(ls: Seq<Seq<char>>) -> Seq<char>
    decreases ls.len(),
{
    if ls.len() == 0 {
        Seq::empty()
    } else {
        joined_lines(ls.drop_last()) + ls.last()
    }
}

/// `message` under a hanging indent of `n` columns: its first line as it
/// is, each further line after `n` spaces.
pub open spec fn hanging(message: Seq<char>, n: nat) -> Seq<char> {
    let ls = lines_of(message);
    if ls.len() == 0 {
        Seq::empty()
    } else {
        ls[0] + indented(joined_lines(ls.skip(1)), spaces_of(n))
    }
}

/// `message` under a hanging indent of `n` columns.
fn hang(message: &str, n: usize) -> (r: String)
    ensures
        r@ == hanging(message@, n as nat),
{
    let lines = split_lines(message);
    if lines.len() == 0 {
        return String::new();
    }
    let ghost ls = lines_of(message@);
    let mut rest = String::new();
    let mut k: usize = 1;
    while k < lines.len()
        invariant
            1 <= k <= lines@.len(),
            lines@.len() == ls.len(),
            forall|i: int| 0 <= i < lines@.len() ==> lines@[i]@ == ls[i],
            rest@ == joined_lines(ls.subrange(1, k as int)),
        decreases lines@.len() - k,
    {
        rest.append(lines[k].as_str());
        assert(ls.subrange(1, k + 1).drop_last() =~= ls.subrange(1, k as int));
        k = k + 1;
    }
    assert(ls.subrange(1, k as int) =~= ls.skip(1));
    let tail = indent_text(rest.as_str(), spaces(n).as_str());
    lines[0].clone().concat(tail.as_str())
}

/// The row of the `k`-th message of an error chain: the outermost under an
/// `error:` label, each cause under a `caused_by:` label, under hanging
/// indents that line further lines up past the labels.
pub open spec fn chain_row(k: int, message: Seq<char>) -> Seq<(Seq<char>, Tone)> {
    if k == 0 {
        seq![
            ("error:"@, Tone::ErrorLabel),
            (" "@, Tone::Plain),
            (hanging(message, 7) + "\n"@, Tone::Plain),
        ]
    } else {
        seq![
            ("caused_by:"@, Tone::ErrorLabel),
            (" "@, Tone::Plain),
            (" "@, Tone::Plain),
            (hanging(message, 11) + "\n"@, Tone::Plain),
        ]
    }
}

/// `rows` show the messages of `chain`, one row each.
pub open spec fn shows_chain(rows: Seq<Vec<Span>>, chain: Seq<String>) -> bool {
    &&& rows.len() == chain.len()
    &&& forall|k: int| 0 <= k < rows.len() ==> pieces(#[trigger] rows[k]@) == chain_row(k, chain[k]@)
}

/// The rows that show an error and its causes, outermost first; no rows for
/// an empty chain.
pub fn render_error_chain(chain: &Vec<String>) -> (r: Vec<Vec<Span>>)
    ensures
        shows_chain(r@, chain@),
{
    let mut out: Vec<Vec<Span>> = Vec::new();
    let mut k: usize = 0;
    while k < chain.len()
        invariant
            k <= chain@.len(),
            out@.len() == k,
            forall|i: int| 0 <= i < k ==> pieces(#[trigger] out@[i]@) == chain_row(i, chain@[i]@),
        decreases chain@.len() - k,
    {
        let mut row: Vec<Span> = Vec::new();
        if k == 0 {
            row.push(literal("error:", Tone::ErrorLabel));
            row.push(literal(" ", Tone::Plain));
            let body = hang(chain[k].as_str(), 7);
            row.push(Span { text: body.concat("\n"), tone: Tone::Plain });
        } else {
            row.push(literal("caused_by:", Tone::ErrorLabel));
            row.push(literal(" ", Tone::Plain));
            row.push(literal(" ", Tone::Plain));
            let body = hang(chain[k].as_str(), 11);
            row.push(Span { text: body.concat("\n"), tone: Tone::Plain });
        }
        assert(pieces(row@) =~= chain_row(k as int, chain@[k as int]@));
        out.push(row);
        k = k + 1;
    }
    out
}

} // verus!

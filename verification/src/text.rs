//! Cutting lines of text into fields.

use crate::error::EngineError;
use vstd::prelude::*;

verus! {

/// The place of the first `sep` at or after `from`, and the length of the
/// text where there is none.
pub open spec fn next_separator(text: Seq<char>, sep: char, from: int) -> int
    decreases text.len() - from,
{
    if from < 0 || from >= text.len() {
        text.len() as int
    } else if text[from] == sep {
        from
    } else {
        next_separator(text, sep, from + 1)
    }
}

/// The pieces of a text from `from` on, cut at every `sep`: one more piece
/// than there are separators, so that a text without separator is one
/// piece, and an empty text one empty piece.
pub open spec fn pieces(text: Seq<char>, sep: char, from: int) -> Seq<Seq<char>>
    decreases text.len() - from,
{
    if from < 0 || from > text.len() {
        Seq::empty()
    } else {
        let end = next_separator(text, sep, from);
        if end >= text.len() || end < from {
            seq![text.subrange(from, text.len() as int)]
        } else {
            seq![text.subrange(from, end)] + pieces(text, sep, end + 1)
        }
    }
}

/// A text without leading and trailing white space, as `str::trim` gives
/// it.
pub uninterp spec fn trimmed(text: Seq<char>) -> Seq<char>;

/// `str::trim`: the text without leading and trailing white space, white
/// space being what Unicode calls so.
#[verifier::external_body]
pub(crate) fn trim(text: &str) -> (r: String)
    ensures
        r@ == trimmed(text@),
{
    text.trim().to_string()
}

/// The texts of a list of strings.
pub open spec fn texts(items: Seq<String>) -> Seq<Seq<char>> {
    Seq::new(items.len(), |i: int| items[i]@)
}

/// Cuts a text at every `sep`.
pub fn split_on(text: &str, sep: char) -> (r: Vec<String>)
    ensures
        texts(r@) == pieces(text@, sep, 0),
{
    let n: usize = text.unicode_len();
    let mut out: Vec<String> = Vec::new();
    let mut start: usize = 0;
    let mut i: usize = 0;
    assert(texts(out@) =~= Seq::<Seq<char>>::empty());
    while i < n
        invariant
            start <= i <= n,
            n == text@.len(),
            next_separator(text@, sep, start as int) == next_separator(text@, sep, i as int),
            pieces(text@, sep, 0) == texts(out@) + pieces(text@, sep, start as int),
        decreases n - i,
    {
        if text.get_char(i) == sep {
            let piece = text.substring_char(start, i).to_owned();
            let ghost before = texts(out@);
            out.push(piece);
            proof {
                assert(next_separator(text@, sep, start as int) == i);
                assert(texts(out@) =~= before.push(text@.subrange(start as int, i as int)));
                assert(pieces(text@, sep, start as int) =~= seq![
                    text@.subrange(start as int, i as int),
                ] + pieces(text@, sep, i + 1));
                assert(pieces(text@, sep, 0) =~= texts(out@) + pieces(text@, sep, i + 1));
            }
            start = i + 1;
        }
        i += 1;
    }
    let piece = text.substring_char(start, n).to_owned();
    let ghost before = texts(out@);
    out.push(piece);
    proof {
        assert(next_separator(text@, sep, start as int) == n);
        assert(texts(out@) =~= before.push(text@.subrange(start as int, n as int)));
        assert(pieces(text@, sep, start as int) =~= seq![text@.subrange(start as int, n as int)]);
    }
    out
}

/// Whether a line of data holds nothing to read: it is blank, or a comment
/// that starts with `#`.
pub open spec fn is_skipped(line: Seq<char>) -> bool {
    trimmed(line).len() == 0 || (line.len() > 0 && line[0] == '#')
}

/// Whether a line of data holds nothing to read.
pub fn skip_line(line: &str) -> (r: bool)
    ensures
        r == is_skipped(line@),
{
    let t = trim(line);
    if t.as_str().unicode_len() == 0 {
        return true;
    }
    line.unicode_len() > 0 && line.get_char(0) == '#'
}

/// The first three fields of a line of data: observable, value and
/// uncertainty, each without white space around it.
#[derive(Debug, PartialEq, Eq)]
pub struct CsvFields {
    pub observable: String,
    pub value: String,
    pub uncertainty: String,
}

/// The fields of a line of comma-separated data. A line with fewer than
/// three fields is an error.
pub fn csv_fields(line: &str) -> (r: Result<CsvFields, EngineError>)
    ensures
        match r {
            Ok(f) => pieces(line@, ',', 0).len() >= 3 && f.observable@ == trimmed(
                pieces(line@, ',', 0)[0],
            ) && f.value@ == trimmed(pieces(line@, ',', 0)[1]) && f.uncertainty@ == trimmed(
                pieces(line@, ',', 0)[2],
            ),
            Err(e) => pieces(line@, ',', 0).len() < 3 && e is ParseError,
        },
{
    let parts = split_on(line, ',');
    assert(texts(parts@).len() == parts@.len());
    if parts.len() < 3 {
        return Err(
            EngineError::parse_error(
                0,
                0,
                "CSV line must have at least 3 columns: observable,value,uncertainty".to_string(),
            ),
        );
    }
    assert(texts(parts@)[0] == parts@[0]@);
    assert(texts(parts@)[1] == parts@[1]@);
    assert(texts(parts@)[2] == parts@[2]@);
    Ok(
        CsvFields {
            observable: trim(parts[0].as_str()),
            value: trim(parts[1].as_str()),
            uncertainty: trim(parts[2].as_str()),
        },
    )
}

/// The two sides of an assignment `name=value`: the first and the second
/// piece of the text cut at `=`. A text without `=` has no second side.
pub fn assignment(text: &str) -> (r: Option<(String, String)>)
    ensures
        match r {
            Some((name, value)) => pieces(text@, '=', 0).len() >= 2 && name@ == pieces(
                text@,
                '=',
                0,
            )[0] && value@ == pieces(text@, '=', 0)[1],
            None => pieces(text@, '=', 0).len() < 2,
        },
{
    let mut parts = split_on(text, '=');
    assert(texts(parts@).len() == parts@.len());
    if parts.len() < 2 {
        return None;
    }
    assert(texts(parts@)[0] == parts@[0]@);
    assert(texts(parts@)[1] == parts@[1]@);
    let value = parts[1].clone();
    let name = parts[0].clone();
    Some((name, value))
}

} // verus!

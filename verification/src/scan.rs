//! The dataset scanner: the decompressed text is read as newline-delimited
//! lines, each line split on tabs, and the first line containing the search
//! term as a substring in any field decides the outcome — a four-field row,
//! a schema mismatch, or (when the text is exhausted) not-found.

use vstd::prelude::*;
use crate::text::{
    split_on, contains_seq, to_chars, from_chars, split_chars, contains_chars, lemma_split_on_len,
};

verus! {

/// The number of columns every matching data line must have.
pub const COLUMN_COUNT: usize = 4;

/// One found data row: the four fixed columns, in order.
pub struct Row {
    pub ip: String,
    pub number: String,
    pub country: String,
    pub host: String,
}

/// The mathematical value of a `Row`.
pub struct RowModel {
    pub ip: Seq<char>,
    pub number: Seq<char>,
    pub country: Seq<char>,
    pub host: Seq<char>,
}

impl View for Row {
    type V = RowModel;

    open spec fn view(&self) -> RowModel {
        RowModel { ip: self.ip@, number: self.number@, country: self.country@, host: self.host@ }
    }
}

/// Everything a single invocation can decide: exactly one of these.
pub enum SearchOutcome {
    /// The first matching line, split into the four columns.
    Found(Row),
    /// No line contains the search term.
    NotFound,
    /// The query string binds no `search_term`.
    MissingParam,
    /// The dataset could not be fetched; the cause as handed in.
    FetchError(String),
    /// The fetched bytes are not a gzip stream of text; the cause.
    DecompressError(String),
    /// The first matching line does not have exactly four fields.
    SchemaMismatch { got: usize, line: String },
}

/// The mathematical value of a `SearchOutcome`.
pub enum OutcomeModel {
    Found(RowModel),
    NotFound,
    MissingParam,
    FetchError(Seq<char>),
    DecompressError(Seq<char>),
    SchemaMismatch { got: nat, line: Seq<char> },
}

impl View for SearchOutcome {
    type V = OutcomeModel;

    open spec fn view(&self) -> OutcomeModel {
        match self {
            SearchOutcome::Found(row) => OutcomeModel::Found(row@),
            SearchOutcome::NotFound => OutcomeModel::NotFound,
            SearchOutcome::MissingParam => OutcomeModel::MissingParam,
            SearchOutcome::FetchError(cause) => OutcomeModel::FetchError(cause@),
            SearchOutcome::DecompressError(cause) => OutcomeModel::DecompressError(cause@),
            SearchOutcome::SchemaMismatch { got, line } => OutcomeModel::SchemaMismatch {
                got: *got as nat,
                line: line@,
            },
        }
    }
}

/// A line with a trailing carriage return removed.
pub open spec fn strip_cr(s: Seq<char>) -> Seq<char> {
    if s.len() > 0 && s.last() == '\r' {
        s.drop_last()
    } else {
        s
    }
}

/// The lines of `text`: split at `'\n'`, the empty piece after a final
/// newline (or of empty text) dropped, and a carriage return left at the end
/// of a line removed.
pub open spec fn lines_of(text: Seq<char>) -> Seq<Seq<char>> {
    let parts = split_on(text, '\n');
    let kept = if parts.last().len() == 0 {
        parts.drop_last()
    } else {
        parts
    };
    kept.map_values(|p: Seq<char>| strip_cr(p))
}

/// The tab-separated fields of a line.
pub open spec fn fields_of(line: Seq<char>) -> Seq<Seq<char>> {
    split_on(line, '\t')
}

/// Whether any field of `line` contains `term` as a substring.
pub open spec fn line_matches(line: Seq<char>, term: Seq<char>) -> bool {
    exists|f: int|
        0 <= f < fields_of(line).len() && contains_seq(#[trigger] fields_of(line)[f], term)
}

/// The outcome of scanning `lines` in order for `term`: the first matching
/// line decides — a row when it has exactly four fields, a schema mismatch
/// otherwise — and exhaustion means not-found.
pub open spec fn scan_lines_spec(lines: Seq<Seq<char>>, term: Seq<char>) -> OutcomeModel
    decreases lines.len(),
{
    if lines.len() == 0 {
        OutcomeModel::NotFound
    } else if line_matches(lines[0], term) {
        let fs = fields_of(lines[0]);
        if fs.len() == COLUMN_COUNT {
            OutcomeModel::Found(
                RowModel { ip: fs[0], number: fs[1], country: fs[2], host: fs[3] },
            )
        } else {
            OutcomeModel::SchemaMismatch { got: fs.len(), line: lines[0] }
        }
    } else {
        scan_lines_spec(lines.skip(1), term)
    }
}

/// The outcome of scanning decompressed `text` for `term`.
pub open spec fn scan_text_spec(text: Seq<char>, term: Seq<char>) -> OutcomeModel {
    scan_lines_spec(lines_of(text), term)
}

/// A copy of `p` with a trailing carriage return removed.
fn strip_cr_line(p: &Vec<char>) -> (q: Vec<char>)
    ensures
        q@ == strip_cr(p@),
{
    let n = if p.len() > 0 && p[p.len() - 1] == '\r' {
        p.len() - 1
    } else {
        p.len()
    };
    let mut q: Vec<char> = Vec::new();
    let mut i: usize = 0;
    while i < n
        invariant
            n <= p@.len(),
            0 <= i <= n,
            q@ == p@.take(i as int),
        decreases n - i,
    {
        q.push(p[i]);
        proof {
            assert(q@ =~= p@.take(i + 1));
        }
        i = i + 1;
    }
    proof {
        if p@.len() > 0 && p@.last() == '\r' {
            assert(q@ =~= p@.drop_last());
        } else {
            assert(q@ =~= p@);
        }
    }
    q
}

/// The lines of `text`, matching `lines_of`.
fn split_lines(tv: &Vec<char>) -> (lines: Vec<Vec<char>>)
    ensures
        lines@.map_values(|p: Vec<char>| p@) == lines_of(tv@),
{
    let mut parts = split_chars(tv, '\n');
    let ghost pview = parts@.map_values(|p: Vec<char>| p@);
    proof {
        lemma_split_on_len(tv@, '\n');
        assert(pview.len() >= 1);
    }
    let last_empty = parts[parts.len() - 1].len() == 0;
    let ghost kept = if pview.last().len() == 0 {
        pview.drop_last()
    } else {
        pview
    };
    let mut lines: Vec<Vec<char>> = Vec::new();
    let keep_count = if last_empty {
        parts.len() - 1
    } else {
        parts.len()
    };
    proof {
        assert(kept.len() == keep_count);
        assert(forall|j: int| 0 <= j < kept.len() ==> kept[j] == pview[j]);
    }
    let mut i: usize = 0;
    while i < keep_count
        invariant
            keep_count <= parts@.len(),
            pview == parts@.map_values(|p: Vec<char>| p@),
            kept.len() == keep_count,
            forall|j: int| 0 <= j < kept.len() ==> kept[j] == pview[j],
            0 <= i <= keep_count,
            lines@.map_values(|p: Vec<char>| p@) == kept.take(i as int).map_values(
                |p: Seq<char>| strip_cr(p),
            ),
        decreases keep_count - i,
    {
        let q = strip_cr_line(&parts[i]);
        let ghost qv = q@;
        let ghost pre = lines@;
        lines.push(q);
        proof {
            assert(parts@[i as int]@ == pview[i as int]);
            assert(kept[i as int] == pview[i as int]);
            assert(pre.map_values(|p: Vec<char>| p@).len() == pre.len());
            assert(pre.len() == i);
            assert forall|j: int| #![trigger pre[j]] 0 <= j < i implies pre[j]@ == strip_cr(
                kept[j],
            ) by {
                assert(pre.map_values(|p: Vec<char>| p@)[j] == pre[j]@);
                assert(kept.take(i as int).map_values(|p: Seq<char>| strip_cr(p))[j] == strip_cr(
                    kept.take(i as int)[j],
                ));
                assert(kept.take(i as int)[j] == kept[j]);
            }
            assert(lines@.len() == i + 1);
            assert(lines@[i as int]@ == strip_cr(kept[i as int]));
            assert forall|j: int| #![trigger lines@[j]] 0 <= j < i + 1 implies lines@[j]@
                == strip_cr(kept.take(i + 1)[j]) by {
                assert(kept.take(i + 1)[j] == kept[j]);
                if j < i {
                    assert(lines@[j] == pre[j]);
                }
            }
            assert(lines@.map_values(|p: Vec<char>| p@) =~= kept.take(i + 1).map_values(
                |p: Seq<char>| strip_cr(p),
            ));
        }
        i = i + 1;
    }
    proof {
        assert(kept.take(kept.len() as int) =~= kept);
        assert(lines@.map_values(|p: Vec<char>| p@) == lines_of(tv@));
    }
    lines
}

/// Whether any field contains `term`, matching `line_matches` on the line
/// the fields came from.
fn any_field_contains(
    fields: &Vec<Vec<char>>,
    term: &Vec<char>,
    Ghost(line): Ghost<Seq<char>>,
) -> (r: bool)
    requires
        fields@.map_values(|p: Vec<char>| p@) == fields_of(line),
    ensures
        r == line_matches(line, term@),
{
    let mut f: usize = 0;
    while f < fields.len()
        invariant
            fields@.map_values(|p: Vec<char>| p@) == fields_of(line),
            0 <= f <= fields@.len(),
            forall|x: int| 0 <= x < f ==> !contains_seq(#[trigger] fields_of(line)[x], term@),
        decreases fields@.len() - f,
    {
        if contains_chars(&fields[f], term) {
            proof {
                assert(fields_of(line)[f as int] == fields@[f as int]@);
            }
            return true;
        }
        proof {
            assert(fields_of(line)[f as int] == fields@[f as int]@);
        }
        f = f + 1;
    }
    false
}

/// Scan the decompressed dataset text for the first line containing
/// `search` in any tab-separated field: that line decides the outcome — its
/// row when it has exactly four fields, a schema mismatch naming the count
/// and the line otherwise — and `NotFound` when no line matches.
pub fn scan_text(text: &str, search: &str) -> (r: SearchOutcome)
    ensures
        r@ == scan_text_spec(text@, search@),
{
    let tv = to_chars(text);
    let sv = to_chars(search);
    let lines = split_lines(&tv);
    let ghost lview = lines@.map_values(|p: Vec<char>| p@);
    proof {
        assert(lview == lines_of(text@));
        assert(lview.skip(0) =~= lview);
    }
    let mut i: usize = 0;
    while i < lines.len()
        invariant
            sv@ == search@,
            lview == lines@.map_values(|p: Vec<char>| p@),
            lview == lines_of(text@),
            0 <= i <= lview.len(),
            scan_lines_spec(lview.skip(i as int), search@) == scan_text_spec(text@, search@),
        decreases lview.len() - i,
    {
        let ghost line = lview[i as int];
        proof {
            assert(lview.skip(i as int)[0] == line);
        }
        let fields = split_chars(&lines[i], '\t');
        if any_field_contains(&fields, &sv, Ghost(line)) {
            proof {
                lemma_split_on_len(line, '\t');
            }
            if fields.len() == COLUMN_COUNT {
                let row = Row {
                    ip: from_chars(&fields[0]),
                    number: from_chars(&fields[1]),
                    country: from_chars(&fields[2]),
                    host: from_chars(&fields[3]),
                };
                proof {
                    assert(fields_of(line)[0] == fields@[0]@);
                    assert(fields_of(line)[1] == fields@[1]@);
                    assert(fields_of(line)[2] == fields@[2]@);
                    assert(fields_of(line)[3] == fields@[3]@);
                }
                return SearchOutcome::Found(row);
            } else {
                let raw = from_chars(&lines[i]);
                return SearchOutcome::SchemaMismatch { got: fields.len(), line: raw };
            }
        }
        proof {
            assert(lview.skip(i as int).skip(1) =~= lview.skip(i + 1));
        }
        i = i + 1;
    }
    proof {
        assert(lview.skip(i as int) =~= Seq::<Seq<char>>::empty());
    }
    SearchOutcome::NotFound
}

} // verus!

//! Rendering the response envelope: a JSON object with exactly the two
//! top-level keys `result` and `error`, of which exactly one is null. The
//! rendering is specified character by character, so the produced text is a
//! function of the outcome alone.

use vstd::prelude::*;
use crate::scan::{OutcomeModel, RowModel, SearchOutcome};
use crate::text::{to_chars, from_chars};

verus! {

/// The decimal digit character for `n` (last digit when `n >= 10` is never
/// asked for).
pub open spec fn dec_digit(n: nat) -> char {
    if n == 0 {
        '0'
    } else if n == 1 {
        '1'
    } else if n == 2 {
        '2'
    } else if n == 3 {
        '3'
    } else if n == 4 {
        '4'
    } else if n == 5 {
        '5'
    } else if n == 6 {
        '6'
    } else if n == 7 {
        '7'
    } else if n == 8 {
        '8'
    } else {
        '9'
    }
}

/// The decimal rendering of `n`, most significant digit first, no sign and
/// no leading zero (except for `n == 0` itself).
pub open spec fn dec_str(n: nat) -> Seq<char>
    decreases n,
{
    if n < 10 {
        seq![dec_digit(n)]
    } else {
        dec_str(n / 10).push(dec_digit(n % 10))
    }
}

/// The lower-case hexadecimal digit character for `n < 16`.
pub open spec fn hex_digit(n: nat) -> char {
    if n < 10 {
        dec_digit(n)
    } else if n == 10 {
        'a'
    } else if n == 11 {
        'b'
    } else if n == 12 {
        'c'
    } else if n == 13 {
        'd'
    } else if n == 14 {
        'e'
    } else {
        'f'
    }
}

/// The JSON escape of one character: quotes and backslashes get a
/// backslash, control characters become `\u00..`, everything else stands
/// for itself.
pub open spec fn escape_char(c: char) -> Seq<char> {
    if c == '"' {
        seq!['\\', '"']
    } else if c == '\\' {
        seq!['\\', '\\']
    } else if (c as u32) < 0x20 {
        seq!['\\', 'u', '0', '0', hex_digit((c as u32 / 16) as nat), hex_digit(
            (c as u32 % 16) as nat,
        )]
    } else {
        seq![c]
    }
}

/// The JSON escape of a whole text, character by character.
pub open spec fn json_escape(s: Seq<char>) -> Seq<char>
    decreases s.len(),
{
    if s.len() == 0 {
        Seq::empty()
    } else {
        json_escape(s.drop_last()) + escape_char(s.last())
    }
}

/// A JSON string literal: the escaped text between double quotes.
pub open spec fn json_string(s: Seq<char>) -> Seq<char> {
    seq!['"'] + json_escape(s) + seq!['"']
}

/// The JSON object for a found row: the four fixed column names, in order.
pub open spec fn json_row(row: RowModel) -> Seq<char> {
    "{\"IP\":"@ + json_string(row.ip) + ",\"Number\":"@ + json_string(row.number)
        + ",\"Country\":"@ + json_string(row.country) + ",\"Host\":"@ + json_string(row.host)
        + "}"@
}

/// The row carried by the outcome, when it carries one.
pub open spec fn envelope_result(o: OutcomeModel) -> Option<RowModel> {
    match o {
        OutcomeModel::Found(row) => Some(row),
        _ => None,
    }
}

/// The error message of a non-`Found` outcome.
pub open spec fn error_text(o: OutcomeModel) -> Seq<char> {
    match o {
        OutcomeModel::Found(_) => Seq::empty(),
        OutcomeModel::NotFound => "No matching row found."@,
        OutcomeModel::MissingParam => "Missing 'search_term' query parameter."@,
        OutcomeModel::FetchError(cause) => "Error: "@ + cause,
        OutcomeModel::DecompressError(cause) => "Error: "@ + cause,
        OutcomeModel::SchemaMismatch { got, line } => "Error: Expected 4 columns, but got "@
            + dec_str(got) + ": "@ + line,
    }
}

/// The error message carried by the outcome, when it carries one.
pub open spec fn error_message(o: OutcomeModel) -> Option<Seq<char>> {
    if o is Found {
        None
    } else {
        Some(error_text(o))
    }
}

/// Exactly one side of the envelope is populated: an outcome carries a
/// result row precisely when it carries no error message — this holds of
/// every constructible outcome, the success case and every failure alike.
pub proof fn lemma_envelope_exclusive(o: OutcomeModel)
    ensures
        (envelope_result(o) is Some) <==> (error_message(o) is None),
{
}

/// The whole response: `result` holds the row and `error` is null, or
/// `result` is null and `error` holds the message.
pub open spec fn envelope_json(o: OutcomeModel) -> Seq<char> {
    match o {
        OutcomeModel::Found(row) => "{\"result\":"@ + json_row(row) + ",\"error\":null}"@,
        _ => "{\"result\":null,\"error\":"@ + json_string(error_text(o)) + "}"@,
    }
}

/// The decimal digit character for `x`.
fn dec_digit_char(x: usize) -> (c: char)
    requires
        x < 10,
    ensures
        c == dec_digit(x as nat),
{
    if x == 0 {
        '0'
    } else if x == 1 {
        '1'
    } else if x == 2 {
        '2'
    } else if x == 3 {
        '3'
    } else if x == 4 {
        '4'
    } else if x == 5 {
        '5'
    } else if x == 6 {
        '6'
    } else if x == 7 {
        '7'
    } else if x == 8 {
        '8'
    } else {
        '9'
    }
}

/// The lower-case hexadecimal digit character for `x < 16`.
fn hex_digit_char(x: u32) -> (c: char)
    requires
        x < 16,
    ensures
        c == hex_digit(x as nat),
{
    if x < 10 {
        dec_digit_char(x as usize)
    } else if x == 10 {
        'a'
    } else if x == 11 {
        'b'
    } else if x == 12 {
        'c'
    } else if x == 13 {
        'd'
    } else if x == 14 {
        'e'
    } else {
        'f'
    }
}

/// Append the decimal rendering of `n`.
fn push_dec(out: &mut Vec<char>, n: usize)
    ensures
        final(out)@ == old(out)@ + dec_str(n as nat),
    decreases n,
{
    if n >= 10 {
        push_dec(out, n / 10);
        let d = dec_digit_char(n % 10);
        out.push(d);
        proof {
            assert(out@ =~= old(out)@ + dec_str(n as nat));
        }
    } else {
        let d = dec_digit_char(n);
        out.push(d);
        proof {
            assert(out@ =~= old(out)@ + dec_str(n as nat));
        }
    }
}

/// Append all characters of `s`.
fn append_chars(out: &mut Vec<char>, s: &Vec<char>)
    ensures
        final(out)@ == old(out)@ + s@,
{
    proof {
        assert(out@ =~= old(out)@ + s@.take(0));
    }
    let mut i: usize = 0;
    while i < s.len()
        invariant
            0 <= i <= s@.len(),
            out@ == old(out)@ + s@.take(i as int),
        decreases s@.len() - i,
    {
        out.push(s[i]);
        proof {
            assert(out@ =~= old(out)@ + s@.take(i + 1));
        }
        i = i + 1;
    }
    proof {
        assert(old(out)@ + s@.take(s@.len() as int) =~= old(out)@ + s@);
    }
}

/// Append all characters of the literal `s`.
fn append_lit(out: &mut Vec<char>, s: &str)
    ensures
        final(out)@ == old(out)@ + s@,
{
    let v = to_chars(s);
    append_chars(out, &v);
}

/// Append the JSON escape of `s`.
fn append_escaped(out: &mut Vec<char>, s: &Vec<char>)
    ensures
        final(out)@ == old(out)@ + json_escape(s@),
{
    proof {
        assert(json_escape(s@.take(0)) =~= Seq::<char>::empty());
        assert(out@ =~= old(out)@ + json_escape(s@.take(0)));
    }
    let mut i: usize = 0;
    while i < s.len()
        invariant
            0 <= i <= s@.len(),
            out@ == old(out)@ + json_escape(s@.take(i as int)),
        decreases s@.len() - i,
    {
        let c = s[i];
        if c == '"' {
            out.push('\\');
            out.push('"');
        } else if c == '\\' {
            out.push('\\');
            out.push('\\');
        } else {
            let n = c as u32;
            if n < 0x20 {
                out.push('\\');
                out.push('u');
                out.push('0');
                out.push('0');
                let hi = hex_digit_char(n / 16);
                out.push(hi);
                let lo = hex_digit_char(n % 16);
                out.push(lo);
            } else {
                out.push(c);
            }
        }
        proof {
            assert(s@.take(i + 1).drop_last() =~= s@.take(i as int));
            assert(s@.take(i + 1).last() == s@[i as int]);
            assert(json_escape(s@.take(i + 1)) == json_escape(s@.take(i as int)) + escape_char(
                s@[i as int],
            ));
            assert(out@ =~= old(out)@ + json_escape(s@.take(i + 1)));
        }
        i = i + 1;
    }
    proof {
        assert(s@.take(s@.len() as int) =~= s@);
    }
}

/// Append the JSON string literal for `s`.
fn append_json_string(out: &mut Vec<char>, s: &Vec<char>)
    ensures
        final(out)@ == old(out)@ + json_string(s@),
{
    out.push('"');
    append_escaped(out, s);
    out.push('"');
    proof {
        assert(out@ =~= old(out)@ + json_string(s@));
    }
}

/// The error message of `outcome`, as characters.
fn error_text_chars(outcome: &SearchOutcome) -> (v: Vec<char>)
    ensures
        v@ == error_text(outcome@),
{
    let mut v: Vec<char> = Vec::new();
    match outcome {
        SearchOutcome::Found(_) => {
            proof {
                assert(v@ =~= error_text(outcome@));
            }
        },
        SearchOutcome::NotFound => {
            append_lit(&mut v, "No matching row found.");
            proof {
                assert(v@ =~= error_text(outcome@));
            }
        },
        SearchOutcome::MissingParam => {
            append_lit(&mut v, "Missing 'search_term' query parameter.");
            proof {
                assert(v@ =~= error_text(outcome@));
            }
        },
        SearchOutcome::FetchError(cause) => {
            append_lit(&mut v, "Error: ");
            let cv = to_chars(cause.as_str());
            append_chars(&mut v, &cv);
            proof {
                assert(v@ =~= error_text(outcome@));
            }
        },
        SearchOutcome::DecompressError(cause) => {
            append_lit(&mut v, "Error: ");
            let cv = to_chars(cause.as_str());
            append_chars(&mut v, &cv);
            proof {
                assert(v@ =~= error_text(outcome@));
            }
        },
        SearchOutcome::SchemaMismatch { got, line } => {
            append_lit(&mut v, "Error: Expected 4 columns, but got ");
            push_dec(&mut v, *got);
            append_lit(&mut v, ": ");
            let lv = to_chars(line.as_str());
            append_chars(&mut v, &lv);
            proof {
                assert(v@ =~= error_text(outcome@));
            }
        },
    }
    v
}

/// The response text opens with a null `result`.
pub open spec fn result_is_null(j: Seq<char>) -> bool {
    j.len() >= 15 && j.subrange(0, 15) == "{\"result\":null,"@
}

/// The response text closes with a null `error`.
pub open spec fn error_is_null(j: Seq<char>) -> bool {
    j.len() >= 14 && j.subrange(j.len() - 14, j.len() as int) == ",\"error\":null}"@
}

/// In the rendered text itself exactly one of the two keys is null:
/// `error` in a success response, `result` in every failure and in
/// not-found — over every constructible outcome.
pub proof fn lemma_rendered_envelope_exclusive(o: OutcomeModel)
    ensures
        error_is_null(envelope_json(o)) <==> (o is Found),
        result_is_null(envelope_json(o)) <==> !(o is Found),
{
    reveal_strlit("{\"result\":null,");
    reveal_strlit("{\"result\":null,\"error\":");
    reveal_strlit("{\"result\":");
    reveal_strlit("{\"IP\":");
    reveal_strlit(",\"error\":null}");
    reveal_strlit("}");
    let j = envelope_json(o);
    match o {
        OutcomeModel::Found(row) => {
            let jr = json_row(row);
            let x1 = "{\"IP\":"@ + json_string(row.ip);
            let x2 = x1 + ",\"Number\":"@;
            let x3 = x2 + json_string(row.number);
            let x4 = x3 + ",\"Country\":"@;
            let x5 = x4 + json_string(row.country);
            let x6 = x5 + ",\"Host\":"@;
            let x7 = x6 + json_string(row.host);
            assert(jr == x7 + "}"@);
            assert(jr[0] == '{');
            assert(j == "{\"result\":"@ + jr + ",\"error\":null}"@);
            assert(j[10] == jr[0]);
            assert(j.subrange(j.len() - 14, j.len() as int) =~= ",\"error\":null}"@);
            assert(error_is_null(j));
            assert("{\"result\":null,"@[10] == 'n');
            if result_is_null(j) {
                assert(j.subrange(0, 15)[10] == j[10]);
                assert(false);
            }
        },
        _ => {
            let msg = error_text(o);
            let js = json_string(msg);
            assert(j == "{\"result\":null,\"error\":"@ + js + "}"@);
            assert(j.len() == 24 + js.len());
            assert forall|k: int| 0 <= k < 15 implies j.subrange(0, 15)[k]
                == "{\"result\":null,"@[k] by {
                assert(j[k] == "{\"result\":null,\"error\":"@[k]);
            }
            assert(j.subrange(0, 15) =~= "{\"result\":null,"@);
            assert(result_is_null(j));
            // the character before the closing brace is the string's closing
            // quote, where a null `error` would show an `l`
            assert(js[js.len() - 1] == '"');
            assert(j[j.len() - 2] == js[js.len() - 1]);
            assert(",\"error\":null}"@[12] == 'l');
            if error_is_null(j) {
                assert(j.subrange(j.len() - 14, j.len() as int)[12] == j[j.len() - 2]);
                assert(false);
            }
        },
    }
}

/// Render the outcome as the two-key JSON envelope: the row under `result`
/// with `error` null, or null under `result` with the message under
/// `error` — character for character the envelope of the outcome's value.
pub fn render_response(outcome: &SearchOutcome) -> (r: String)
    ensures
        r@ == envelope_json(outcome@),
{
    let mut out: Vec<char> = Vec::new();
    match outcome {
        SearchOutcome::Found(row) => {
            append_lit(&mut out, "{\"result\":");
            append_lit(&mut out, "{\"IP\":");
            let ipv = to_chars(row.ip.as_str());
            append_json_string(&mut out, &ipv);
            append_lit(&mut out, ",\"Number\":");
            let nv = to_chars(row.number.as_str());
            append_json_string(&mut out, &nv);
            append_lit(&mut out, ",\"Country\":");
            let cv = to_chars(row.country.as_str());
            append_json_string(&mut out, &cv);
            append_lit(&mut out, ",\"Host\":");
            let hv = to_chars(row.host.as_str());
            append_json_string(&mut out, &hv);
            append_lit(&mut out, "}");
            append_lit(&mut out, ",\"error\":null}");
            proof {
                assert(out@ =~= envelope_json(outcome@));
            }
        },
        _ => {
            append_lit(&mut out, "{\"result\":null,\"error\":");
            let msg = error_text_chars(outcome);
            append_json_string(&mut out, &msg);
            append_lit(&mut out, "}");
            proof {
                assert(out@ =~= envelope_json(outcome@));
            }
        },
    }
    from_chars(&out)
}

} // verus!

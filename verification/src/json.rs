//! The index's JSON format: a verified serializer and parser for the
//! single file that persists the store's records.

use vstd::prelude::*;

use crate::clock::is_rfc3339;
use crate::clock::rfc3339_valid;
use crate::errors::StoreError;
use crate::model::Comment;
use crate::model::CommentV;
use crate::model::ImageRecord;
use crate::model::IndexFile;
use crate::model::RecordV;
use crate::model::comments_v;
use crate::model::records_v;
use crate::text::char_from_u32;
use crate::text::push_char;
use crate::text::str_eq;
use crate::text::str_to_chars;

verus! {

/// A JSON value. Numbers keep their raw text: the index schema has no
/// number field, so they are only carried through.
pub enum Json {
    Null,
    Bool(bool),
    Num(String),
    Str(String),
    Arr(Vec<Json>),
    Obj(Vec<(String, Json)>),
}

/// The hexadecimal digit character for a value below sixteen.
pub open spec fn hex_digit(n: int) -> char
    recommends
        0 <= n < 16,
{
    if n < 10 {
        ((n + 48) as u8) as char
    } else {
        ((n + 87) as u8) as char
    }
}

/// How one character is written inside a JSON string literal.
pub open spec fn esc_char(c: char) -> Seq<char> {
    if c == '"' {
        seq!['\\', '"']
    } else if c == '\\' {
        seq!['\\', '\\']
    } else if c == '\u{8}' {
        seq!['\\', 'b']
    } else if c == '\u{c}' {
        seq!['\\', 'f']
    } else if c == '\n' {
        seq!['\\', 'n']
    } else if c == '\r' {
        seq!['\\', 'r']
    } else if c == '\t' {
        seq!['\\', 't']
    } else if (c as u32) < 32 {
        seq!['\\', 'u', '0', '0', hex_digit((c as u32 / 16) as int), hex_digit((c as u32 % 16) as int)]
    } else {
        seq![c]
    }
}

/// How a whole string is escaped.
pub open spec fn esc_str(s: Seq<char>) -> Seq<char>
    decreases s.len(),
{
    if s.len() == 0 {
        Seq::empty()
    } else {
        esc_str(s.drop_last()) + esc_char(s.last())
    }
}

/// A JSON string literal: the escaped characters between quotes.
pub open spec fn quoted(s: Seq<char>) -> Seq<char> {
    seq!['"'] + esc_str(s) + seq!['"']
}

/// How a comment is written, indented as an element of a record's
/// comment list.
pub open spec fn comment_text(c: CommentV) -> Seq<char> {
    "        {\n          \"id\": "@ + quoted(c.id) + ",\n          \"text\": "@ + quoted(c.text)
        + ",\n          \"timestamp\": "@ + quoted(c.timestamp) + ",\n          \"is_ai\": "@ + (
    if c.is_ai {
        "true"@
    } else {
        "false"@
    }) + "\n        }"@
}

/// How a comment list is written, one element per line.
pub open spec fn comments_text(cs: Seq<CommentV>) -> Seq<char>
    decreases cs.len(),
{
    if cs.len() == 0 {
        Seq::empty()
    } else if cs.len() == 1 {
        comment_text(cs[0])
    } else {
        comments_text(cs.drop_last()) + ",\n"@ + comment_text(cs.last())
    }
}

/// How a whole comment list is written as the value of its field: empty
/// inline, otherwise a bracketed block.
pub open spec fn comments_block(cs: Seq<CommentV>) -> Seq<char> {
    if cs.len() == 0 {
        "[]"@
    } else {
        "[\n"@ + comments_text(cs) + "\n      ]"@
    }
}

/// How an optional analysis result is written.
pub open spec fn analysis_text(a: Option<Seq<char>>) -> Seq<char> {
    match a {
        Option::None => "null"@,
        Option::Some(s) => quoted(s),
    }
}

/// How a record is written, indented as an element of the index's
/// record list.
pub open spec fn record_text(r: RecordV) -> Seq<char> {
    "    {\n      \"id\": "@ + quoted(r.id) + ",\n      \"filename\": "@ + quoted(r.filename)
        + ",\n      \"original_name\": "@ + quoted(r.original_name)
        + ",\n      \"timestamp\": "@ + quoted(r.timestamp) + ",\n      \"analysis_result\": "@
        + analysis_text(r.analysis_result) + ",\n      \"user_comments\": "@ + comments_block(
        r.user_comments,
    ) + "\n    }"@
}

/// How the record list is written, one element per line.
pub open spec fn records_text(rs: Seq<RecordV>) -> Seq<char>
    decreases rs.len(),
{
    if rs.len() == 0 {
        Seq::empty()
    } else if rs.len() == 1 {
        record_text(rs[0])
    } else {
        records_text(rs.drop_last()) + ",\n"@ + record_text(rs.last())
    }
}

/// How the whole index is written: the pretty-printed on-disk form.
pub open spec fn index_text(rs: Seq<RecordV>) -> Seq<char> {
    if rs.len() == 0 {
        "{\n  \"images\": []\n}"@
    } else {
        "{\n  \"images\": [\n"@ + records_text(rs) + "\n  ]\n}"@
    }
}

/// Appends one escaped character.
fn push_escaped_char(out: &mut String, c: char)
    ensures
        final(out)@ == old(out)@ + esc_char(c),
{
    if c == '"' {
        push_char(out, '\\');
        push_char(out, '"');
    } else if c == '\\' {
        push_char(out, '\\');
        push_char(out, '\\');
    } else if c == '\u{8}' {
        push_char(out, '\\');
        push_char(out, 'b');
    } else if c == '\u{c}' {
        push_char(out, '\\');
        push_char(out, 'f');
    } else if c == '\n' {
        push_char(out, '\\');
        push_char(out, 'n');
    } else if c == '\r' {
        push_char(out, '\\');
        push_char(out, 'r');
    } else if c == '\t' {
        push_char(out, '\\');
        push_char(out, 't');
    } else if (c as u32) < 32 {
        push_char(out, '\\');
        push_char(out, 'u');
        push_char(out, '0');
        push_char(out, '0');
        let hi = (c as u32) / 16;
        let lo = (c as u32) % 16;
        push_char(out, if hi < 10 {
            ((hi + 48) as u8) as char
        } else {
            ((hi + 87) as u8) as char
        });
        push_char(out, if lo < 10 {
            ((lo + 48) as u8) as char
        } else {
            ((lo + 87) as u8) as char
        });
    } else {
        push_char(out, c);
    }
    proof {
        assert(final(out)@ =~= old(out)@ + esc_char(c));
    }
}

/// Appends a JSON string literal.
fn append_quoted(out: &mut String, s: &str)
    ensures
        final(out)@ == old(out)@ + quoted(s@),
{
    push_char(out, '"');
    let v = str_to_chars(s);
    let mut i: usize = 0;
    while i < v.len()
        invariant
            v@ == s@,
            i <= v@.len(),
            out@ == old(out)@ + seq!['"'] + esc_str(s@.subrange(0, i as int)),
        decreases v@.len() - i,
    {
        proof {
            assert(s@.subrange(0, i + 1).drop_last() =~= s@.subrange(0, i as int));
            assert(s@.subrange(0, i + 1).last() == s@[i as int]);
        }
        push_escaped_char(out, v[i]);
        proof {
            assert(out@ =~= old(out)@ + seq!['"'] + esc_str(s@.subrange(0, i + 1)));
        }
        i = i + 1;
    }
    push_char(out, '"');
    proof {
        assert(s@.subrange(0, s@.len() as int) =~= s@);
        assert(out@ =~= old(out)@ + quoted(s@));
    }
}

/// Appends one comment.
fn append_comment(out: &mut String, c: &Comment)
    ensures
        final(out)@ == old(out)@ + comment_text(c@),
{
    out.append("        {\n          \"id\": ");
    append_quoted(out, c.id.as_str());
    out.append(",\n          \"text\": ");
    append_quoted(out, c.text.as_str());
    out.append(",\n          \"timestamp\": ");
    append_quoted(out, c.timestamp.as_str());
    out.append(",\n          \"is_ai\": ");
    if c.is_ai {
        out.append("true");
    } else {
        out.append("false");
    }
    out.append("\n        }");
    proof {
        assert(final(out)@ =~= old(out)@ + comment_text(c@));
    }
}

/// Appends a comma-separated comment list.
fn append_comments(out: &mut String, cs: &Vec<Comment>)
    ensures
        final(out)@ == old(out)@ + comments_text(comments_v(cs@)),
{
    let mut i: usize = 0;
    while i < cs.len()
        invariant
            i <= cs@.len(),
            out@ == old(out)@ + comments_text(comments_v(cs@.subrange(0, i as int))),
        decreases cs@.len() - i,
    {
        if i > 0 {
            out.append(",\n");
        }
        append_comment(out, &cs[i]);
        proof {
            let pre = comments_v(cs@.subrange(0, i as int));
            let now = comments_v(cs@.subrange(0, i + 1));
            assert(now.drop_last() =~= pre);
            assert(now.last() == cs@[i as int]@);
            if i == 0 {
                assert(comments_text(now) == comment_text(cs@[0]@));
            }
            assert(out@ =~= old(out)@ + comments_text(now));
        }
        i = i + 1;
    }
    proof {
        assert(cs@.subrange(0, cs@.len() as int) =~= cs@);
    }
}

/// Appends one record.
#[verifier::rlimit(100)]
fn append_record(out: &mut String, r: &ImageRecord)
    ensures
        final(out)@ == old(out)@ + record_text(r@),
{
    out.append("    {\n      \"id\": ");
    append_quoted(out, r.id.as_str());
    out.append(",\n      \"filename\": ");
    append_quoted(out, r.filename.as_str());
    out.append(",\n      \"original_name\": ");
    append_quoted(out, r.original_name.as_str());
    out.append(",\n      \"timestamp\": ");
    append_quoted(out, r.timestamp.as_str());
    out.append(",\n      \"analysis_result\": ");
    match &r.analysis_result {
        Option::Some(s) => {
            append_quoted(out, s.as_str());
        },
        Option::None => {
            out.append("null");
        },
    }
    out.append(",\n      \"user_comments\": ");
    if r.user_comments.len() == 0 {
        out.append("[]");
    } else {
        out.append("[\n");
        append_comments(out, &r.user_comments);
        out.append("\n      ]");
    }
    out.append("\n    }");
    proof {
        assert(final(out)@ =~= old(out)@ + record_text(r@));
    }
}

/// Writes a record list in the index's on-disk JSON form.
#[verifier::rlimit(100)]
#[verifier::spinoff_prover]
pub fn index_to_json(images: &Vec<ImageRecord>) -> (r: String)
    ensures
        r@ == index_text(records_v(images@)),
{
    if images.len() == 0 {
        let out = String::from_str("{\n  \"images\": []\n}");
        proof {
            assert(records_v(images@) =~= Seq::<RecordV>::empty());
        }
        return out;
    }
    let mut out = String::from_str("{\n  \"images\": [\n");
    let mut i: usize = 0;
    while i < images.len()
        invariant
            i <= images@.len(),
            out@ == "{\n  \"images\": [\n"@ + records_text(records_v(images@.subrange(0, i as int))),
        decreases images@.len() - i,
    {
        if i > 0 {
            out.append(",\n");
        }
        append_record(&mut out, &images[i]);
        proof {
            let pre = records_v(images@.subrange(0, i as int));
            let now = records_v(images@.subrange(0, i + 1));
            assert(now.drop_last() =~= pre);
            assert(now.last() == images@[i as int]@);
            if i == 0 {
                assert(records_text(now) == record_text(images@[0]@));
            }
            assert(out@ =~= "{\n  \"images\": [\n"@ + records_text(now));
        }
        i = i + 1;
    }
    out.append("\n  ]\n}");
    proof {
        assert(images@.subrange(0, images@.len() as int) =~= images@);
        assert(out@ =~= index_text(records_v(images@)));
    }
    out
}



/// Whether a character is JSON whitespace.
pub open spec fn is_ws_char(c: char) -> bool {
    c == ' ' || c == '\t' || c == '\n' || c == '\r'
}

/// The position of the first non-whitespace character at or after `j`.
pub open spec fn ws_end(v: Seq<char>, j: int) -> int
    decreases v.len() - j,
{
    if 0 <= j < v.len() && is_ws_char(v[j]) {
        ws_end(v, j + 1)
    } else {
        j
    }
}

/// The position after any run of JSON whitespace.
fn skip_ws(v: &Vec<char>, start: usize) -> (r: usize)
    requires
        start <= v@.len(),
    ensures
        start <= r <= v@.len(),
        r == ws_end(v@, start as int),
{
    let mut j = start;
    while j < v.len() && (v[j] == ' ' || v[j] == '\t' || v[j] == '\n' || v[j] == '\r')
        invariant
            start <= j <= v@.len(),
            ws_end(v@, start as int) == ws_end(v@, j as int),
        decreases v@.len() - j,
    {
        j = j + 1;
    }
    j
}

/// The value a hexadecimal digit character denotes.
pub open spec fn spec_hex_val(c: char) -> Option<int> {
    let u = c as u32;
    if 48 <= u && u <= 57 {
        Option::Some(u - 48)
    } else if 97 <= u && u <= 102 {
        Option::Some(u - 87)
    } else if 65 <= u && u <= 70 {
        Option::Some(u - 55)
    } else {
        Option::None
    }
}

/// The value four hexadecimal digit characters denote.
pub open spec fn spec_hex4(v: Seq<char>, p: int) -> Option<int> {
    if p + 4 <= v.len() {
        match (spec_hex_val(v[p]), spec_hex_val(v[p + 1]), spec_hex_val(v[p + 2]), spec_hex_val(
            v[p + 3],
        )) {
            (Option::Some(a), Option::Some(b), Option::Some(c), Option::Some(d)) => Option::Some(
                a * 4096 + b * 256 + c * 16 + d,
            ),
            _ => Option::None,
        }
    } else {
        Option::None
    }
}

/// The character with the given scalar value.
pub open spec fn char_of(code: int) -> char {
    (code as u32) as char
}

/// What a JSON string literal denotes, read from just after its opening
/// quote: the decoded characters and the position after the closing
/// quote, or nothing when the text is not a well-formed literal.
pub open spec fn spec_string_body(v: Seq<char>, j: int) -> Option<(Seq<char>, int)>
    decreases v.len() - j,
{
    if j < 0 || j >= v.len() {
        Option::None
    } else if v[j] == '"' {
        Option::Some((Seq::empty(), j + 1))
    } else if v[j] == '\\' {
        if j + 1 >= v.len() {
            Option::None
        } else {
            let e = v[j + 1];
            if e == '"' || e == '\\' || e == '/' {
                string_body_cons(e, spec_string_body(v, j + 2))
            } else if e == 'b' {
                string_body_cons('\u{8}', spec_string_body(v, j + 2))
            } else if e == 'f' {
                string_body_cons('\u{c}', spec_string_body(v, j + 2))
            } else if e == 'n' {
                string_body_cons('\n', spec_string_body(v, j + 2))
            } else if e == 'r' {
                string_body_cons('\r', spec_string_body(v, j + 2))
            } else if e == 't' {
                string_body_cons('\t', spec_string_body(v, j + 2))
            } else if e == 'u' {
                match spec_hex4(v, j + 2) {
                    Option::None => Option::None,
                    Option::Some(h) => if 0xD800 <= h < 0xDC00 {
                        if j + 12 > v.len() || v[j + 6] != '\\' || v[j + 7] != 'u' {
                            Option::None
                        } else {
                            match spec_hex4(v, j + 8) {
                                Option::None => Option::None,
                                Option::Some(l) => if 0xDC00 <= l < 0xE000 {
                                    string_body_cons(
                                        char_of(0x10000 + (h - 0xD800) * 1024 + (l - 0xDC00)),
                                        spec_string_body(v, j + 12),
                                    )
                                } else {
                                    Option::None
                                },
                            }
                        }
                    } else if 0xDC00 <= h < 0xE000 {
                        Option::None
                    } else {
                        string_body_cons(char_of(h), spec_string_body(v, j + 6))
                    },
                }
            } else {
                Option::None
            }
        }
    } else if (v[j] as u32) < 32 {
        Option::None
    } else {
        string_body_cons(v[j], spec_string_body(v, j + 1))
    }
}

/// Prepends one decoded character to the rest of a literal.
pub open spec fn string_body_cons(c: char, rest: Option<(Seq<char>, int)>) -> Option<
    (Seq<char>, int),
> {
    match rest {
        Option::Some(p) => Option::Some((seq![c] + p.0, p.1)),
        Option::None => Option::None,
    }
}

/// What a whole string literal at `start` denotes.
pub open spec fn spec_string_at(v: Seq<char>, start: int) -> Option<(Seq<char>, int)> {
    if 0 <= start < v.len() && v[start] == '"' {
        spec_string_body(v, start + 1)
    } else {
        Option::None
    }
}

/// A literal's denotation from `j`, with the characters decoded so far
/// prepended.
pub open spec fn string_body_app(v: Seq<char>, j: int, acc: Seq<char>) -> Option<
    (Seq<char>, int),
> {
    match spec_string_body(v, j) {
        Option::Some(p) => Option::Some((acc + p.0, p.1)),
        Option::None => Option::None,
    }
}

/// One decoding step moves a character from the literal to the
/// accumulator.
proof fn lemma_body_app_step(v: Seq<char>, j: int, k: int, c: char, acc: Seq<char>)
    requires
        spec_string_body(v, j) == string_body_cons(c, spec_string_body(v, k)),
    ensures
        string_body_app(v, j, acc) == string_body_app(v, k, acc.push(c)),
{
    match spec_string_body(v, k) {
        Option::Some(p) => {
            assert(acc + (seq![c] + p.0) =~= acc.push(c) + p.0);
        },
        Option::None => {},
    }
}

/// Whether a character is a decimal digit.
pub open spec fn is_digit_char(c: char) -> bool {
    '0' <= c && c <= '9'
}

/// The position of the first non-digit character at or after `j`.
pub open spec fn digits_end(v: Seq<char>, j: int) -> int
    decreases v.len() - j,
{
    if 0 <= j < v.len() && is_digit_char(v[j]) {
        digits_end(v, j + 1)
    } else {
        j
    }
}

/// The position after a number starting at `start`, or nothing when no
/// well-formed number starts there.
pub open spec fn number_end(v: Seq<char>, start: int) -> Option<int> {
    if !(0 <= start < v.len()) {
        Option::None
    } else {
        let j0 = if v[start] == '-' {
            start + 1
        } else {
            start as int
        };
        if !(j0 < v.len()) {
            Option::None
        } else {
            let j1opt = if v[j0] == '0' {
                Option::Some(j0 + 1)
            } else if is_digit_char(v[j0]) {
                Option::Some(digits_end(v, j0))
            } else {
                Option::<int>::None
            };
            match j1opt {
                Option::None => Option::None,
                Option::Some(j1) => {
                    let j2opt = if j1 < v.len() && v[j1] == '.' {
                        if j1 + 1 < v.len() && is_digit_char(v[j1 + 1]) {
                            Option::Some(digits_end(v, j1 + 1))
                        } else {
                            Option::<int>::None
                        }
                    } else {
                        Option::Some(j1)
                    };
                    match j2opt {
                        Option::None => Option::None,
                        Option::Some(j2) => {
                            if j2 < v.len() && (v[j2] == 'e' || v[j2] == 'E') {
                                let j3 = if j2 + 1 < v.len() && (v[j2 + 1] == '+' || v[j2 + 1]
                                    == '-') {
                                    j2 + 2
                                } else {
                                    j2 + 1
                                };
                                if j3 < v.len() && is_digit_char(v[j3]) {
                                    Option::Some(digits_end(v, j3))
                                } else {
                                    Option::None
                                }
                            } else {
                                Option::Some(j2)
                            }
                        },
                    }
                },
            }
        }
    }
}

/// What the value starting at `start` denotes, with the position after
/// it, or nothing when no well-formed value starts there. Together with
/// `arr_rest_at` and `obj_rest_at` this decides exactly the texts the
/// parser accepts and names the value they denote.
pub open spec fn value_at(v: Seq<char>, start: int) -> Option<(JsonV, int)>
    decreases v.len() - start, 1int,
{
    if !(0 <= start < v.len()) {
        Option::None
    } else {
        let c = v[start];
        if c == 'n' {
            if start + 4 <= v.len() && v[start + 1] == 'u' && v[start + 2] == 'l' && v[start + 3]
                == 'l' {
                Option::Some((JsonV::Null, start + 4))
            } else {
                Option::None
            }
        } else if c == 't' {
            if start + 4 <= v.len() && v[start + 1] == 'r' && v[start + 2] == 'u' && v[start + 3]
                == 'e' {
                Option::Some((JsonV::Bool(true), start + 4))
            } else {
                Option::None
            }
        } else if c == 'f' {
            if start + 5 <= v.len() && v[start + 1] == 'a' && v[start + 2] == 'l' && v[start + 3]
                == 's' && v[start + 4] == 'e' {
                Option::Some((JsonV::Bool(false), start + 5))
            } else {
                Option::None
            }
        } else if c == '"' {
            match spec_string_at(v, start) {
                Option::Some(p) => Option::Some((JsonV::Str(p.0), p.1)),
                Option::None => Option::None,
            }
        } else if c == '-' || is_digit_char(c) {
            match number_end(v, start) {
                Option::Some(e) => Option::Some((JsonV::Num(v.subrange(start, e)), e)),
                Option::None => Option::None,
            }
        } else if c == '[' {
            let j = ws_end(v, start + 1);
            if !(start + 1 <= j <= v.len()) {
                Option::None
            } else if j < v.len() && v[j] == ']' {
                Option::Some((JsonV::Arr(Seq::empty()), j + 1))
            } else {
                match arr_rest_at(v, j) {
                    Option::Some(p) => Option::Some((JsonV::Arr(p.0), p.1)),
                    Option::None => Option::None,
                }
            }
        } else if c == '{' {
            let j = ws_end(v, start + 1);
            if !(start + 1 <= j <= v.len()) {
                Option::None
            } else if j < v.len() && v[j] == '}' {
                Option::Some((JsonV::Obj(Seq::empty()), j + 1))
            } else {
                match obj_rest_at(v, j) {
                    Option::Some(p) => Option::Some((JsonV::Obj(p.0), p.1)),
                    Option::None => Option::None,
                }
            }
        } else {
            Option::None
        }
    }
}

/// What the remaining elements of an array denote, the closing bracket
/// included, when the next element starts at `j`.
pub open spec fn arr_rest_at(v: Seq<char>, j: int) -> Option<(Seq<JsonV>, int)>
    decreases v.len() - j, 2int,
{
    match value_at(v, j) {
        Option::None => Option::None,
        Option::Some((w, e)) => if !(j < e <= v.len()) {
            Option::None
        } else {
            let k = ws_end(v, e);
            if !(e <= k <= v.len()) {
                Option::None
            } else if k < v.len() && v[k] == ',' {
                let j2 = ws_end(v, k + 1);
                if !(k + 1 <= j2 <= v.len()) {
                    Option::None
                } else {
                    match arr_rest_at(v, j2) {
                        Option::None => Option::None,
                        Option::Some(q) => Option::Some((seq![w] + q.0, q.1)),
                    }
                }
            } else if k < v.len() && v[k] == ']' {
                Option::Some((seq![w], k + 1))
            } else {
                Option::None
            }
        },
    }
}

/// What the remaining entries of an object denote, the closing brace
/// included, when the next key starts at `j`.
pub open spec fn obj_rest_at(v: Seq<char>, j: int) -> Option<(Seq<(Seq<char>, JsonV)>, int)>
    decreases v.len() - j, 2int,
{
    match spec_string_at(v, j) {
        Option::None => Option::None,
        Option::Some(p) => if !(j < p.1 <= v.len()) {
            Option::None
        } else {
            let k = ws_end(v, p.1);
            if !(p.1 <= k <= v.len()) {
                Option::None
            } else if k < v.len() && v[k] == ':' {
                let j3 = ws_end(v, k + 1);
                if !(k + 1 <= j3 <= v.len()) {
                    Option::None
                } else {
                    match value_at(v, j3) {
                        Option::None => Option::None,
                        Option::Some((w, e)) => if !(j3 < e <= v.len()) {
                            Option::None
                        } else {
                            let k2 = ws_end(v, e);
                            if !(e <= k2 <= v.len()) {
                                Option::None
                            } else if k2 < v.len() && v[k2] == ',' {
                                let j4 = ws_end(v, k2 + 1);
                                if !(k2 + 1 <= j4 <= v.len()) {
                                    Option::None
                                } else {
                                    match obj_rest_at(v, j4) {
                                        Option::None => Option::None,
                                        Option::Some(q) => Option::Some(
                                            (seq![(p.0, w)] + q.0, q.1),
                                        ),
                                    }
                                }
                            } else if k2 < v.len() && v[k2] == '}' {
                                Option::Some((seq![(p.0, w)], k2 + 1))
                            } else {
                                Option::None
                            }
                        },
                    }
                }
            } else {
                Option::None
            }
        },
    }
}

/// What a whole text denotes as one JSON document: one value, possibly
/// surrounded by whitespace, reaching the end of the text.
pub open spec fn doc_at(s: Seq<char>) -> Option<JsonV> {
    match value_at(s, ws_end(s, 0)) {
        Option::Some(p) => if ws_end(s, p.1) == s.len() {
            Option::Some(p.0)
        } else {
            Option::None
        },
        Option::None => Option::None,
    }
}

/// Whether a text is one well-formed JSON document.
pub open spec fn doc_accepted(s: Seq<char>) -> bool {
    doc_at(s) is Some
}

/// The value of one hexadecimal digit character.
fn hex_val(c: char) -> (r: Option<u32>)
    ensures
        r matches Some(x) ==> x < 16,
        (match r {
            Option::Some(x) => spec_hex_val(c) == Option::Some(x as int),
            Option::None => spec_hex_val(c) is None,
        }),
{
    let u = c as u32;
    if 48 <= u && u <= 57 {
        Option::Some(u - 48)
    } else if 97 <= u && u <= 102 {
        Option::Some(u - 87)
    } else if 65 <= u && u <= 70 {
        Option::Some(u - 55)
    } else {
        Option::None
    }
}

/// The value of four hexadecimal digit characters.
fn hex4(v: &Vec<char>, p: usize) -> (r: Option<u32>)
    requires
        p + 4 <= v@.len(),
    ensures
        r matches Some(x) ==> x < 0x10000,
        (match r {
            Option::Some(x) => spec_hex4(v@, p as int) == Option::Some(x as int),
            Option::None => spec_hex4(v@, p as int) is None,
        }),
{
    // binding the length to a machine word lets the index sums below stay
    // in range
    let _: usize = v.len();
    let h0 = hex_val(v[p]);
    let h1 = hex_val(v[p + 1]);
    let h2 = hex_val(v[p + 2]);
    let h3 = hex_val(v[p + 3]);
    match (h0, h1, h2, h3) {
        (Option::Some(a), Option::Some(b), Option::Some(c), Option::Some(d)) => Option::Some(
            a * 4096 + b * 256 + c * 16 + d,
        ),
        _ => Option::None,
    }
}

/// Parses a JSON string literal starting at an opening quote; returns
/// exactly what the literal denotes and the position after the closing
/// quote.
fn parse_string(v: &Vec<char>, start: usize) -> (r: Result<(String, usize), ()>)
    requires
        start < v@.len(),
    ensures
        (match r {
            Result::Ok(p) => start < p.1 <= v@.len() && spec_string_at(v@, start as int)
                == Option::Some((p.0@, p.1 as int)),
            Result::Err(_) => spec_string_at(v@, start as int) is None,
        }),
{
    let n = v.len();
    if v[start] != '"' {
        return Result::Err(());
    }
    let mut out = String::new();
    let mut j: usize = start + 1;
    proof {
        match spec_string_body(v@, start + 1) {
            Option::Some(p) => {
                assert(Seq::<char>::empty() + p.0 =~= p.0);
            },
            Option::None => {},
        }
    }
    loop
        invariant
            n == v@.len(),
            start < j <= v@.len(),
            v@[start as int] == '"',
            spec_string_body(v@, start + 1) == string_body_app(v@, j as int, out@),
        decreases v@.len() - j,
    {
        if j >= n {
            return Result::Err(());
        }
        let c = v[j];
        if c == '"' {
            proof {
                match spec_string_body(v@, start + 1) {
                    Option::Some(p) => {
                        assert(out@ + Seq::<char>::empty() =~= out@);
                    },
                    Option::None => {},
                }
            }
            return Result::Ok((out, j + 1));
        }
        if c == '\\' {
            if n - j < 2 {
                return Result::Err(());
            }
            let e = v[j + 1];
            if e == '"' || e == '\\' || e == '/' {
                proof {
                    lemma_body_app_step(v@, j as int, j + 2, e, out@);
                }
                push_char(&mut out, e);
                j = j + 2;
            } else if e == 'b' {
                proof {
                    lemma_body_app_step(v@, j as int, j + 2, '\u{8}', out@);
                }
                push_char(&mut out, '\u{8}');
                j = j + 2;
            } else if e == 'f' {
                proof {
                    lemma_body_app_step(v@, j as int, j + 2, '\u{c}', out@);
                }
                push_char(&mut out, '\u{c}');
                j = j + 2;
            } else if e == 'n' {
                proof {
                    lemma_body_app_step(v@, j as int, j + 2, '\n', out@);
                }
                push_char(&mut out, '\n');
                j = j + 2;
            } else if e == 'r' {
                proof {
                    lemma_body_app_step(v@, j as int, j + 2, '\r', out@);
                }
                push_char(&mut out, '\r');
                j = j + 2;
            } else if e == 't' {
                proof {
                    lemma_body_app_step(v@, j as int, j + 2, '\t', out@);
                }
                push_char(&mut out, '\t');
                j = j + 2;
            } else if e == 'u' {
                if n - j < 6 {
                    return Result::Err(());
                }
                let h = match hex4(v, j + 2) {
                    Option::Some(x) => x,
                    Option::None => {
                        return Result::Err(());
                    },
                };
                if 0xD800 <= h && h < 0xDC00 {
                    if n - j < 12 {
                        return Result::Err(());
                    }
                    if v[j + 6] != '\\' || v[j + 7] != 'u' {
                        return Result::Err(());
                    }
                    let l = match hex4(v, j + 8) {
                        Option::Some(x) => x,
                        Option::None => {
                            return Result::Err(());
                        },
                    };
                    if !(0xDC00 <= l && l < 0xE000) {
                        return Result::Err(());
                    }
                    let code = 0x10000 + (h - 0xD800) * 1024 + (l - 0xDC00);
                    match char_from_u32(code) {
                        Option::Some(ch) => {
                            proof {
                                vstd::utf8::char_u32_cast(ch, code);
                                assert(char_of(code as int) == ch);
                                lemma_body_app_step(v@, j as int, j + 12, ch, out@);
                            }
                            push_char(&mut out, ch);
                            j = j + 12;
                        },
                        Option::None => {
                            proof {
                                assert(false);
                            }
                            return Result::Err(());
                        },
                    }
                } else if 0xDC00 <= h && h < 0xE000 {
                    return Result::Err(());
                } else {
                    match char_from_u32(h) {
                        Option::Some(ch) => {
                            proof {
                                vstd::utf8::char_u32_cast(ch, h);
                                assert(char_of(h as int) == ch);
                                lemma_body_app_step(v@, j as int, j + 6, ch, out@);
                            }
                            push_char(&mut out, ch);
                            j = j + 6;
                        },
                        Option::None => {
                            proof {
                                assert(false);
                            }
                            return Result::Err(());
                        },
                    }
                }
            } else {
                return Result::Err(());
            }
        } else if (c as u32) < 32 {
            return Result::Err(());
        } else {
            proof {
                lemma_body_app_step(v@, j as int, j + 1, c, out@);
            }
            push_char(&mut out, c);
            j = j + 1;
        }
    }
}

/// Parses a JSON number; its raw text is kept. Succeeds exactly where
/// `number_end` accepts, ending exactly there.
fn parse_number(v: &Vec<char>, start: usize) -> (r: Result<(String, usize), ()>)
    requires
        start < v@.len(),
    ensures
        r matches Ok(p) ==> start < p.1 <= v@.len() && p.0@ == v@.subrange(
            start as int,
            p.1 as int,
        ) && number_end(v@, start as int) == Option::Some(p.1 as int),
        r is Err ==> number_end(v@, start as int) is None,
{
    let n = v.len();
    let mut out = String::new();
    let mut j: usize = start;
    if v[j] == '-' {
        push_char(&mut out, '-');
        proof {
            assert(out@ =~= v@.subrange(start as int, j + 1));
        }
        j = j + 1;
    }
    if j >= n {
        return Result::Err(());
    }
    if v[j] == '0' {
        push_char(&mut out, '0');
        proof {
            assert(out@ =~= v@.subrange(start as int, j + 1));
        }
        j = j + 1;
    } else if '1' <= v[j] && v[j] <= '9' {
        let ghost entry = j as int;
        push_char(&mut out, v[j]);
        proof {
            assert(out@ =~= v@.subrange(start as int, j + 1));
        }
        j = j + 1;
        while j < n && '0' <= v[j] && v[j] <= '9'
            invariant
                n == v@.len(),
                start < j <= v@.len(),
                out@ == v@.subrange(start as int, j as int),
                digits_end(v@, entry) == digits_end(v@, j as int),
            decreases v@.len() - j,
        {
            push_char(&mut out, v[j]);
            proof {
                assert(out@ =~= v@.subrange(start as int, j + 1));
            }
            j = j + 1;
        }
        proof {
            assert(digits_end(v@, j as int) == j);
        }
    } else {
        return Result::Err(());
    }
    if j < n && v[j] == '.' {
        push_char(&mut out, '.');
        proof {
            assert(out@ =~= v@.subrange(start as int, j + 1));
        }
        j = j + 1;
        if j >= n || !('0' <= v[j] && v[j] <= '9') {
            return Result::Err(());
        }
        let ghost entry = j as int;
        while j < n && '0' <= v[j] && v[j] <= '9'
            invariant
                n == v@.len(),
                start < j <= v@.len(),
                out@ == v@.subrange(start as int, j as int),
                digits_end(v@, entry) == digits_end(v@, j as int),
            decreases v@.len() - j,
        {
            push_char(&mut out, v[j]);
            proof {
                assert(out@ =~= v@.subrange(start as int, j + 1));
            }
            j = j + 1;
        }
        proof {
            assert(digits_end(v@, j as int) == j);
        }
    }
    if j < n && (v[j] == 'e' || v[j] == 'E') {
        push_char(&mut out, v[j]);
        proof {
            assert(out@ =~= v@.subrange(start as int, j + 1));
        }
        j = j + 1;
        if j < n && (v[j] == '+' || v[j] == '-') {
            push_char(&mut out, v[j]);
            proof {
                assert(out@ =~= v@.subrange(start as int, j + 1));
            }
            j = j + 1;
        }
        if j >= n || !('0' <= v[j] && v[j] <= '9') {
            return Result::Err(());
        }
        let ghost entry = j as int;
        while j < n && '0' <= v[j] && v[j] <= '9'
            invariant
                n == v@.len(),
                start < j <= v@.len(),
                out@ == v@.subrange(start as int, j as int),
                digits_end(v@, entry) == digits_end(v@, j as int),
            decreases v@.len() - j,
        {
            push_char(&mut out, v[j]);
            proof {
                assert(out@ =~= v@.subrange(start as int, j + 1));
            }
            j = j + 1;
        }
        proof {
            assert(digits_end(v@, j as int) == j);
        }
    }
    Result::Ok((out, j))
}

/// Parses one JSON value starting at `start`; returns it and the
/// position after it. Succeeds exactly where `value_at` accepts, and
/// the returned value's view is exactly what the text denotes there.
fn parse_value(v: &Vec<char>, start: usize) -> (r: Result<(Json, usize), ()>)
    requires
        start <= v@.len(),
    ensures
        r matches Ok(p) ==> start < p.1 <= v@.len() && value_at(v@, start as int)
            == Option::Some((jv(p.0), p.1 as int)),
        r is Err ==> value_at(v@, start as int) is None,
        (match r {
            Result::Ok(p) => match p.0 {
                Json::Str(st) => spec_string_at(v@, start as int) == Option::Some(
                    (st@, p.1 as int),
                ),
                Json::Num(txt) => txt@ == v@.subrange(start as int, p.1 as int),
                Json::Null => p.1 == start + 4 && v@.subrange(start as int, p.1 as int)
                    == "null"@,
                Json::Bool(b) => if b {
                    p.1 == start + 4 && v@.subrange(start as int, p.1 as int) == "true"@
                } else {
                    p.1 == start + 5 && v@.subrange(start as int, p.1 as int) == "false"@
                },
                _ => true,
            },
            Result::Err(_) => true,
        }),
    decreases v@.len() - start, 1int,
{
    if start >= v.len() {
        return Result::Err(());
    }
    let c = v[start];
    if c == 'n' {
        if v.len() - start >= 4 && v[start + 1] == 'u' && v[start + 2] == 'l' && v[start + 3]
            == 'l' {
            proof {
                reveal_strlit("null");
                assert(v@.subrange(start as int, start + 4) =~= "null"@);
            }
            Result::Ok((Json::Null, start + 4))
        } else {
            Result::Err(())
        }
    } else if c == 't' {
        if v.len() - start >= 4 && v[start + 1] == 'r' && v[start + 2] == 'u' && v[start + 3]
            == 'e' {
            proof {
                reveal_strlit("true");
                assert(v@.subrange(start as int, start + 4) =~= "true"@);
            }
            Result::Ok((Json::Bool(true), start + 4))
        } else {
            Result::Err(())
        }
    } else if c == 'f' {
        if v.len() - start >= 5 && v[start + 1] == 'a' && v[start + 2] == 'l' && v[start + 3]
            == 's' && v[start + 4] == 'e' {
            proof {
                reveal_strlit("false");
                assert(v@.subrange(start as int, start + 5) =~= "false"@);
            }
            Result::Ok((Json::Bool(false), start + 5))
        } else {
            Result::Err(())
        }
    } else if c == '"' {
        match parse_string(v, start) {
            Result::Ok((s, p)) => Result::Ok((Json::Str(s), p)),
            Result::Err(()) => Result::Err(()),
        }
    } else if c == '-' || ('0' <= c && c <= '9') {
        match parse_number(v, start) {
            Result::Ok((s, p)) => Result::Ok((Json::Num(s), p)),
            Result::Err(()) => Result::Err(()),
        }
    } else if c == '[' {
        let j = skip_ws(v, start + 1);
        if j < v.len() && v[j] == ']' {
            let items: Vec<Json> = Vec::new();
            proof {
                lemma_jv_arr(items);
                assert(jv_items(items@) =~= Seq::<JsonV>::empty());
            }
            Result::Ok((Json::Arr(items), j + 1))
        } else {
            match parse_arr_rest(v, j) {
                Result::Ok((items, e)) => {
                    proof {
                        lemma_jv_arr(items);
                    }
                    Result::Ok((Json::Arr(items), e))
                },
                Result::Err(()) => Result::Err(()),
            }
        }
    } else if c == '{' {
        let j = skip_ws(v, start + 1);
        if j < v.len() && v[j] == '}' {
            let entries: Vec<(String, Json)> = Vec::new();
            proof {
                lemma_jv_obj(entries);
                assert(jv_entries(entries@) =~= Seq::<(Seq<char>, JsonV)>::empty());
            }
            Result::Ok((Json::Obj(entries), j + 1))
        } else {
            match parse_obj_rest(v, j) {
                Result::Ok((entries, e)) => {
                    proof {
                        lemma_jv_obj(entries);
                    }
                    Result::Ok((Json::Obj(entries), e))
                },
                Result::Err(()) => Result::Err(()),
            }
        }
    } else {
        Result::Err(())
    }
}

/// Parses the remaining elements of an array, the closing bracket
/// included. Succeeds exactly where `arr_rest_at` accepts, and the
/// returned elements' views are what the text denotes.
fn parse_arr_rest(v: &Vec<char>, start: usize) -> (r: Result<(Vec<Json>, usize), ()>)
    requires
        start <= v@.len(),
    ensures
        r matches Ok(p) ==> start < p.1 <= v@.len() && arr_rest_at(v@, start as int)
            == Option::Some((jv_items(p.0@), p.1 as int)),
        r is Err ==> arr_rest_at(v@, start as int) is None,
    decreases v@.len() - start, 2int,
{
    match parse_value(v, start) {
        Result::Err(()) => Result::Err(()),
        Result::Ok((val, e)) => {
            let ghost valj = val;
            let k = skip_ws(v, e);
            if k < v.len() && v[k] == ',' {
                let j2 = skip_ws(v, k + 1);
                match parse_arr_rest(v, j2) {
                    Result::Err(()) => Result::Err(()),
                    Result::Ok((sub_items, end)) => {
                        let ghost subvec = sub_items;
                        let mut items = sub_items;
                        items.insert(0, val);
                        proof {
                            assert(items@ =~= seq![valj] + subvec@);
                            assert(jv_items(items@) =~= seq![jv(valj)] + jv_items(subvec@));
                        }
                        Result::Ok((items, end))
                    },
                }
            } else if k < v.len() && v[k] == ']' {
                let mut items: Vec<Json> = Vec::new();
                items.push(val);
                proof {
                    assert(items@ =~= seq![valj]);
                    assert(jv_items(items@) =~= seq![jv(valj)]);
                }
                Result::Ok((items, k + 1))
            } else {
                Result::Err(())
            }
        },
    }
}

/// Parses the remaining entries of an object, the closing brace
/// included. Succeeds exactly where `obj_rest_at` accepts, and the
/// returned entries' views are what the text denotes.
fn parse_obj_rest(v: &Vec<char>, start: usize) -> (r: Result<(Vec<(String, Json)>, usize), ()>)
    requires
        start <= v@.len(),
    ensures
        r matches Ok(p) ==> start < p.1 <= v@.len() && obj_rest_at(v@, start as int)
            == Option::Some((jv_entries(p.0@), p.1 as int)),
        r is Err ==> obj_rest_at(v@, start as int) is None,
    decreases v@.len() - start, 2int,
{
    if start >= v.len() {
        return Result::Err(());
    }
    let (key, j2) = match parse_string(v, start) {
        Result::Ok(p) => p,
        Result::Err(()) => {
            return Result::Err(());
        },
    };
    let k = skip_ws(v, j2);
    if !(k < v.len() && v[k] == ':') {
        return Result::Err(());
    }
    let j3 = skip_ws(v, k + 1);
    match parse_value(v, j3) {
        Result::Err(()) => Result::Err(()),
        Result::Ok((val, e)) => {
            let ghost keyj = key;
            let ghost valj = val;
            let k2 = skip_ws(v, e);
            if k2 < v.len() && v[k2] == ',' {
                let j4 = skip_ws(v, k2 + 1);
                match parse_obj_rest(v, j4) {
                    Result::Err(()) => Result::Err(()),
                    Result::Ok((sub_entries, end)) => {
                        let ghost subvec = sub_entries;
                        let mut entries = sub_entries;
                        entries.insert(0, (key, val));
                        proof {
                            assert(entries@ =~= seq![(keyj, valj)] + subvec@);
                            assert(jv_entries(entries@) =~= seq![(keyj@, jv(valj))] + jv_entries(
                                subvec@,
                            ));
                        }
                        Result::Ok((entries, end))
                    },
                }
            } else if k2 < v.len() && v[k2] == '}' {
                let mut entries: Vec<(String, Json)> = Vec::new();
                entries.push((key, val));
                proof {
                    assert(entries@ =~= seq![(keyj, valj)]);
                    assert(jv_entries(entries@) =~= seq![(keyj@, jv(valj))]);
                }
                Result::Ok((entries, k2 + 1))
            } else {
                Result::Err(())
            }
        },
    }
}

/// Parses a whole JSON document: one value, possibly surrounded by
/// whitespace; anything else is a format error. Succeeds exactly on the
/// texts that `doc_accepted` admits.
pub fn parse_json_text(s: &str) -> (r: Result<Json, StoreError>)
    ensures
        r is Ok <==> doc_accepted(s@),
        r matches Ok(j) ==> doc_at(s@) == Option::Some(jv(j)),
        r matches Err(e) ==> e == StoreError::InvalidIndexFormat,
{
    let v = str_to_chars(s);
    let i = skip_ws(&v, 0);
    match parse_value(&v, i) {
        Result::Err(()) => Result::Err(StoreError::InvalidIndexFormat),
        Result::Ok((j, n)) => {
            let m = skip_ws(&v, n);
            if m == v.len() {
                Result::Ok(j)
            } else {
                Result::Err(StoreError::InvalidIndexFormat)
            }
        },
    }
}


/// The value under the first entry with the given key.
pub open spec fn obj_get(entries: Seq<(String, Json)>, key: Seq<char>) -> Option<Json>
    decreases entries.len(),
{
    if entries.len() == 0 {
        Option::None
    } else if entries[0].0@ == key {
        Option::Some(entries[0].1)
    } else {
        obj_get(entries.drop_first(), key)
    }
}

/// What `obj_get` returns: the value of the first entry holding the key,
/// or `None` when no entry does.
pub proof fn lemma_obj_get(entries: Seq<(String, Json)>, key: Seq<char>)
    ensures
        match obj_get(entries, key) {
            Option::Some(j) => exists|i: int|
                0 <= i < entries.len() && (#[trigger] entries[i]).0@ == key && entries[i].1 == j,
            Option::None => forall|i: int| 0 <= i < entries.len() ==> (#[trigger] entries[i]).0@ != key,
        },
    decreases entries.len(),
{
    if entries.len() > 0 && entries[0].0@ != key {
        let d = entries.drop_first();
        lemma_obj_get(d, key);
        assert(forall|i: int| 0 <= i < d.len() ==> #[trigger] d[i] == entries[i + 1]);
        match obj_get(d, key) {
            Option::None => {
                assert forall|i: int| 0 <= i < entries.len() implies (#[trigger] entries[i]).0@
                    != key by {
                    if i > 0 {
                        assert(d[i - 1] == entries[i]);
                        assert(d[i - 1].0@ != key);
                    }
                }
            },
            Option::Some(j) => {
                let w = choose|i: int| 0 <= i < d.len() && (#[trigger] d[i]).0@ == key && d[i].1
                    == j;
                assert(entries[w + 1].0@ == key && entries[w + 1].1 == j);
            },
        }
    }
}

/// Finds the first entry with the given key.
fn obj_get_exec<'a>(entries: &'a Vec<(String, Json)>, key: &str) -> (r: Option<&'a Json>)
    ensures
        match r {
            Option::Some(j) => obj_get(entries@, key@) == Option::Some(*j),
            Option::None => obj_get(entries@, key@) is None,
        },
{
    let ghost g = entries@;
    proof {
        assert(g.skip(0) =~= g);
    }
    let mut i: usize = 0;
    while i < entries.len()
        invariant
            g == entries@,
            i <= g.len(),
            obj_get(g, key@) == obj_get(g.skip(i as int), key@),
        decreases g.len() - i,
    {
        proof {
            assert(g.skip(i as int).len() > 0);
            assert(g.skip(i as int)[0] == g[i as int]);
            assert(g.skip(i as int).drop_first() =~= g.skip(i + 1));
        }
        if str_eq(entries[i].0.as_str(), key) {
            return Option::Some(&entries[i].1);
        }
        i = i + 1;
    }
    proof {
        assert(g.skip(g.len() as int).len() == 0);
    }
    Option::None
}

/// What a well-shaped comment object denotes: its four fields, with a
/// well-formed timestamp.
pub open spec fn spec_comment_of(j: Json) -> Option<CommentV> {
    match j {
        Json::Obj(entries) => {
            match (
                obj_get(entries@, "id"@),
                obj_get(entries@, "text"@),
                obj_get(entries@, "timestamp"@),
                obj_get(entries@, "is_ai"@),
            ) {
                (
                    Option::Some(Json::Str(id)),
                    Option::Some(Json::Str(text)),
                    Option::Some(Json::Str(ts)),
                    Option::Some(Json::Bool(b)),
                ) => if is_rfc3339(ts@) {
                    Option::Some(CommentV { id: id@, text: text@, timestamp: ts@, is_ai: b })
                } else {
                    Option::None
                },
                _ => Option::None,
            }
        },
        _ => Option::None,
    }
}

/// What a JSON array of comments denotes, element by element.
pub open spec fn spec_comments_seq(items: Seq<Json>) -> Option<Seq<CommentV>>
    decreases items.len(),
{
    if items.len() == 0 {
        Option::Some(Seq::empty())
    } else {
        match (spec_comments_seq(items.drop_last()), spec_comment_of(items.last())) {
            (Option::Some(cs), Option::Some(c)) => Option::Some(cs.push(c)),
            _ => Option::None,
        }
    }
}

/// One invalid element makes the whole comment list invalid.
proof fn lemma_comments_seq_none(items: Seq<Json>, k: int)
    requires
        0 <= k < items.len(),
        spec_comment_of(items[k]) is None,
    ensures
        spec_comments_seq(items) is None,
    decreases items.len(),
{
    if k < items.len() - 1 {
        lemma_comments_seq_none(items.drop_last(), k);
    }
}

/// What a well-shaped record object denotes. A missing or null
/// `analysis_result` is an absent analysis; the comment list is
/// mandatory; unknown keys are ignored.
pub open spec fn spec_record_of(j: Json) -> Option<RecordV> {
    match j {
        Json::Obj(entries) => {
            match (
                obj_get(entries@, "id"@),
                obj_get(entries@, "filename"@),
                obj_get(entries@, "original_name"@),
                obj_get(entries@, "timestamp"@),
            ) {
                (
                    Option::Some(Json::Str(id)),
                    Option::Some(Json::Str(filename)),
                    Option::Some(Json::Str(original)),
                    Option::Some(Json::Str(ts)),
                ) => if !is_rfc3339(ts@) {
                    Option::None
                } else {
                    let analysis = match obj_get(entries@, "analysis_result"@) {
                        Option::None => Option::Some(Option::None),
                        Option::Some(Json::Null) => Option::Some(Option::None),
                        Option::Some(Json::Str(s)) => Option::Some(Option::Some(s@)),
                        Option::Some(_) => Option::None,
                    };
                    let comments = match obj_get(entries@, "user_comments"@) {
                        Option::Some(Json::Arr(items)) => spec_comments_seq(items@),
                        _ => Option::None,
                    };
                    match (analysis, comments) {
                        (Option::Some(a), Option::Some(cs)) => Option::Some(
                            RecordV {
                                id: id@,
                                filename: filename@,
                                original_name: original@,
                                timestamp: ts@,
                                analysis_result: a,
                                user_comments: cs,
                            },
                        ),
                        _ => Option::None,
                    }
                },
                _ => Option::None,
            }
        },
        _ => Option::None,
    }
}

/// What a JSON array of records denotes, element by element.
pub open spec fn spec_records_seq(items: Seq<Json>) -> Option<Seq<RecordV>>
    decreases items.len(),
{
    if items.len() == 0 {
        Option::Some(Seq::empty())
    } else {
        match (spec_records_seq(items.drop_last()), spec_record_of(items.last())) {
            (Option::Some(rs), Option::Some(r)) => Option::Some(rs.push(r)),
            _ => Option::None,
        }
    }
}

/// One invalid element makes the whole record list invalid.
proof fn lemma_records_seq_none(items: Seq<Json>, k: int)
    requires
        0 <= k < items.len(),
        spec_record_of(items[k]) is None,
    ensures
        spec_records_seq(items) is None,
    decreases items.len(),
{
    if k < items.len() - 1 {
        lemma_records_seq_none(items.drop_last(), k);
    }
}

/// What a well-shaped index document denotes: an object whose `images`
/// key holds an array of well-shaped records.
pub open spec fn spec_index_of(j: Json) -> Option<Seq<RecordV>> {
    match j {
        Json::Obj(entries) => match obj_get(entries@, "images"@) {
            Option::Some(Json::Arr(items)) => spec_records_seq(items@),
            _ => Option::None,
        },
        _ => Option::None,
    }
}

/// The value under the first entry with the given key, at the view
/// level.
pub open spec fn obj_get_v(entries: Seq<(Seq<char>, JsonV)>, key: Seq<char>) -> Option<JsonV>
    decreases entries.len(),
{
    if entries.len() == 0 {
        Option::None
    } else if entries[0].0 == key {
        Option::Some(entries[0].1)
    } else {
        obj_get_v(entries.drop_first(), key)
    }
}

/// What a well-shaped comment object denotes, at the view level.
pub open spec fn comment_of_v(d: JsonV) -> Option<CommentV> {
    match d {
        JsonV::Obj(entries) => {
            match (
                obj_get_v(entries, "id"@),
                obj_get_v(entries, "text"@),
                obj_get_v(entries, "timestamp"@),
                obj_get_v(entries, "is_ai"@),
            ) {
                (
                    Option::Some(JsonV::Str(id)),
                    Option::Some(JsonV::Str(text)),
                    Option::Some(JsonV::Str(ts)),
                    Option::Some(JsonV::Bool(b)),
                ) => if is_rfc3339(ts) {
                    Option::Some(CommentV { id: id, text: text, timestamp: ts, is_ai: b })
                } else {
                    Option::None
                },
                _ => Option::None,
            }
        },
        _ => Option::None,
    }
}

/// What an array of comment values denotes, element by element.
pub open spec fn comments_seq_v(items: Seq<JsonV>) -> Option<Seq<CommentV>>
    decreases items.len(),
{
    if items.len() == 0 {
        Option::Some(Seq::empty())
    } else {
        match (comments_seq_v(items.drop_last()), comment_of_v(items.last())) {
            (Option::Some(cs), Option::Some(c)) => Option::Some(cs.push(c)),
            _ => Option::None,
        }
    }
}

/// What a well-shaped record object denotes, at the view level.
pub open spec fn record_of_v(d: JsonV) -> Option<RecordV> {
    match d {
        JsonV::Obj(entries) => {
            match (
                obj_get_v(entries, "id"@),
                obj_get_v(entries, "filename"@),
                obj_get_v(entries, "original_name"@),
                obj_get_v(entries, "timestamp"@),
            ) {
                (
                    Option::Some(JsonV::Str(id)),
                    Option::Some(JsonV::Str(filename)),
                    Option::Some(JsonV::Str(original)),
                    Option::Some(JsonV::Str(ts)),
                ) => if !is_rfc3339(ts) {
                    Option::None
                } else {
                    let analysis = match obj_get_v(entries, "analysis_result"@) {
                        Option::None => Option::Some(Option::None),
                        Option::Some(JsonV::Null) => Option::Some(Option::None),
                        Option::Some(JsonV::Str(a)) => Option::Some(Option::Some(a)),
                        Option::Some(_) => Option::None,
                    };
                    let comments = match obj_get_v(entries, "user_comments"@) {
                        Option::Some(JsonV::Arr(items)) => comments_seq_v(items),
                        _ => Option::None,
                    };
                    match (analysis, comments) {
                        (Option::Some(a), Option::Some(cs)) => Option::Some(
                            RecordV {
                                id: id,
                                filename: filename,
                                original_name: original,
                                timestamp: ts,
                                analysis_result: a,
                                user_comments: cs,
                            },
                        ),
                        _ => Option::None,
                    }
                },
                _ => Option::None,
            }
        },
        _ => Option::None,
    }
}

/// What an array of record values denotes, element by element.
pub open spec fn records_seq_v(items: Seq<JsonV>) -> Option<Seq<RecordV>>
    decreases items.len(),
{
    if items.len() == 0 {
        Option::Some(Seq::empty())
    } else {
        match (records_seq_v(items.drop_last()), record_of_v(items.last())) {
            (Option::Some(rs), Option::Some(r)) => Option::Some(rs.push(r)),
            _ => Option::None,
        }
    }
}

/// What a well-shaped index value denotes, at the view level.
pub open spec fn index_of_v(d: JsonV) -> Option<Seq<RecordV>> {
    match d {
        JsonV::Obj(entries) => match obj_get_v(entries, "images"@) {
            Option::Some(JsonV::Arr(items)) => records_seq_v(items),
            _ => Option::None,
        },
        _ => Option::None,
    }
}

/// The records a text denotes: its denotation as one JSON document,
/// validated against the index schema.
pub open spec fn index_of_text(s: Seq<char>) -> Option<Seq<RecordV>> {
    match doc_at(s) {
        Option::Some(d) => index_of_v(d),
        Option::None => Option::None,
    }
}

/// The record a text denotes: its denotation as one JSON document,
/// validated against the record schema.
pub open spec fn record_of_text(s: Seq<char>) -> Option<RecordV> {
    match doc_at(s) {
        Option::Some(d) => record_of_v(d),
        Option::None => Option::None,
    }
}

/// Looking a key up in an object's view is looking it up in the object.
proof fn lemma_obj_get_bridge(entries: Seq<(String, Json)>, key: Seq<char>)
    ensures
        obj_get_v(jv_entries(entries), key) == (match obj_get(entries, key) {
            Option::Some(x) => Option::Some(jv(x)),
            Option::None => Option::<JsonV>::None,
        }),
    decreases entries.len(),
{
    if entries.len() > 0 {
        assert(jv_entries(entries)[0] == (entries[0].0@, jv(entries[0].1)));
        if entries[0].0@ != key {
            lemma_obj_get_bridge(entries.drop_first(), key);
            assert(jv_entries(entries).drop_first() =~= jv_entries(entries.drop_first()));
        }
    }
}

/// Validating a comment value is validating the comment object it views.
proof fn lemma_comment_bridge(j: Json)
    ensures
        comment_of_v(jv(j)) == spec_comment_of(j),
{
    match j {
        Json::Obj(entries) => {
            lemma_jv_obj(entries);
            lemma_obj_get_bridge(entries@, "id"@);
            lemma_obj_get_bridge(entries@, "text"@);
            lemma_obj_get_bridge(entries@, "timestamp"@);
            lemma_obj_get_bridge(entries@, "is_ai"@);
        },
        _ => {},
    }
}

/// Validating a comment array's views is validating its elements.
proof fn lemma_comments_seq_bridge(items: Seq<Json>)
    ensures
        comments_seq_v(jv_items(items)) == spec_comments_seq(items),
    decreases items.len(),
{
    assert(jv_items(items).len() == items.len());
    if items.len() > 0 {
        lemma_comments_seq_bridge(items.drop_last());
        lemma_comment_bridge(items.last());
        assert(jv_items(items).drop_last() =~= jv_items(items.drop_last()));
        assert(jv_items(items).last() == jv(items.last()));
    }
}

/// Validating a record value is validating the record object it views.
proof fn lemma_record_bridge(j: Json)
    ensures
        record_of_v(jv(j)) == spec_record_of(j),
{
    match j {
        Json::Obj(entries) => {
            lemma_jv_obj(entries);
            lemma_obj_get_bridge(entries@, "id"@);
            lemma_obj_get_bridge(entries@, "filename"@);
            lemma_obj_get_bridge(entries@, "original_name"@);
            lemma_obj_get_bridge(entries@, "timestamp"@);
            lemma_obj_get_bridge(entries@, "analysis_result"@);
            lemma_obj_get_bridge(entries@, "user_comments"@);
            match obj_get(entries@, "user_comments"@) {
                Option::Some(Json::Arr(items)) => {
                    lemma_jv_arr(items);
                    lemma_comments_seq_bridge(items@);
                },
                _ => {},
            }
        },
        _ => {},
    }
}

/// Validating a record array's views is validating its elements.
proof fn lemma_records_seq_bridge(items: Seq<Json>)
    ensures
        records_seq_v(jv_items(items)) == spec_records_seq(items),
    decreases items.len(),
{
    assert(jv_items(items).len() == items.len());
    if items.len() > 0 {
        lemma_records_seq_bridge(items.drop_last());
        lemma_record_bridge(items.last());
        assert(jv_items(items).drop_last() =~= jv_items(items.drop_last()));
        assert(jv_items(items).last() == jv(items.last()));
    }
}

/// Validating an index value is validating the index object it views.
proof fn lemma_index_bridge(j: Json)
    ensures
        index_of_v(jv(j)) == spec_index_of(j),
{
    match j {
        Json::Obj(entries) => {
            lemma_jv_obj(entries);
            lemma_obj_get_bridge(entries@, "images"@);
            match obj_get(entries@, "images"@) {
                Option::Some(Json::Arr(items)) => {
                    lemma_jv_arr(items);
                    lemma_records_seq_bridge(items@);
                },
                _ => {},
            }
        },
        _ => {},
    }
}

/// Validates one comment object.
fn comment_of_exec(j: &Json) -> (r: Option<Comment>)
    ensures
        match r {
            Option::Some(c) => spec_comment_of(*j) == Option::Some(c@),
            Option::None => spec_comment_of(*j) is None,
        },
{
    match j {
        Json::Obj(entries) => {
            let id = obj_get_exec(entries, "id");
            let text = obj_get_exec(entries, "text");
            let ts = obj_get_exec(entries, "timestamp");
            let ia = obj_get_exec(entries, "is_ai");
            match (id, text, ts, ia) {
                (
                    Option::Some(Json::Str(id_s)),
                    Option::Some(Json::Str(text_s)),
                    Option::Some(Json::Str(ts_s)),
                    Option::Some(Json::Bool(b)),
                ) => {
                    if rfc3339_valid(ts_s.as_str()) {
                        Option::Some(
                            Comment {
                                id: id_s.clone(),
                                text: text_s.clone(),
                                timestamp: ts_s.clone(),
                                is_ai: *b,
                            },
                        )
                    } else {
                        Option::None
                    }
                },
                _ => Option::None,
            }
        },
        _ => Option::None,
    }
}

/// Validates a comment array.
fn comments_vec_exec(items: &Vec<Json>) -> (r: Option<Vec<Comment>>)
    ensures
        match r {
            Option::Some(cs) => spec_comments_seq(items@) == Option::Some(comments_v(cs@)),
            Option::None => spec_comments_seq(items@) is None,
        },
{
    let mut acc: Vec<Comment> = Vec::new();
    let mut k: usize = 0;
    while k < items.len()
        invariant
            k <= items@.len(),
            spec_comments_seq(items@.subrange(0, k as int)) == Option::Some(comments_v(acc@)),
        decreases items@.len() - k,
    {
        match comment_of_exec(&items[k]) {
            Option::None => {
                proof {
                    lemma_comments_seq_none(items@, k as int);
                }
                return Option::None;
            },
            Option::Some(c) => {
                let ghost acc0 = acc@;
                let ghost cv = c@;
                acc.push(c);
                proof {
                    assert(items@.subrange(0, k + 1).drop_last() =~= items@.subrange(0, k as int));
                    assert(items@.subrange(0, k + 1).last() == items@[k as int]);
                    assert(acc@.drop_last() =~= acc0);
                    assert(comments_v(acc@) =~= comments_v(acc0).push(cv));
                    assert(spec_comments_seq(items@.subrange(0, k + 1)) == Option::Some(
                        comments_v(acc@),
                    ));
                }
            },
        }
        k = k + 1;
    }
    proof {
        assert(items@.subrange(0, items@.len() as int) =~= items@);
    }
    Option::Some(acc)
}

/// Validates one record object.
fn record_of_exec(j: &Json) -> (r: Option<ImageRecord>)
    ensures
        match r {
            Option::Some(rec) => spec_record_of(*j) == Option::Some(rec@),
            Option::None => spec_record_of(*j) is None,
        },
{
    match j {
        Json::Obj(entries) => {
            let id = obj_get_exec(entries, "id");
            let filename = obj_get_exec(entries, "filename");
            let original = obj_get_exec(entries, "original_name");
            let ts = obj_get_exec(entries, "timestamp");
            match (id, filename, original, ts) {
                (
                    Option::Some(Json::Str(id_s)),
                    Option::Some(Json::Str(filename_s)),
                    Option::Some(Json::Str(original_s)),
                    Option::Some(Json::Str(ts_s)),
                ) => {
                    if !rfc3339_valid(ts_s.as_str()) {
                        return Option::None;
                    }
                    let analysis: Option<String> = match obj_get_exec(entries, "analysis_result") {
                        Option::None => Option::None,
                        Option::Some(Json::Null) => Option::None,
                        Option::Some(Json::Str(s)) => Option::Some(s.clone()),
                        Option::Some(_) => {
                            return Option::None;
                        },
                    };
                    let comments: Vec<Comment> = match obj_get_exec(entries, "user_comments") {
                        Option::Some(Json::Arr(items_c)) => match comments_vec_exec(items_c) {
                            Option::Some(cs) => cs,
                            Option::None => {
                                return Option::None;
                            },
                        },
                        Option::Some(_) => {
                            return Option::None;
                        },
                        Option::None => {
                            return Option::None;
                        },
                    };
                    Option::Some(
                        ImageRecord {
                            id: id_s.clone(),
                            filename: filename_s.clone(),
                            original_name: original_s.clone(),
                            timestamp: ts_s.clone(),
                            analysis_result: analysis,
                            user_comments: comments,
                        },
                    )
                },
                _ => Option::None,
            }
        },
        _ => Option::None,
    }
}

/// Validates a record array.
fn records_vec_exec(items: &Vec<Json>) -> (r: Option<Vec<ImageRecord>>)
    ensures
        match r {
            Option::Some(rs) => spec_records_seq(items@) == Option::Some(records_v(rs@)),
            Option::None => spec_records_seq(items@) is None,
        },
{
    let mut acc: Vec<ImageRecord> = Vec::new();
    let mut k: usize = 0;
    while k < items.len()
        invariant
            k <= items@.len(),
            spec_records_seq(items@.subrange(0, k as int)) == Option::Some(records_v(acc@)),
        decreases items@.len() - k,
    {
        match record_of_exec(&items[k]) {
            Option::None => {
                proof {
                    lemma_records_seq_none(items@, k as int);
                }
                return Option::None;
            },
            Option::Some(rec) => {
                let ghost acc0 = acc@;
                let ghost rv = rec@;
                acc.push(rec);
                proof {
                    assert(items@.subrange(0, k + 1).drop_last() =~= items@.subrange(0, k as int));
                    assert(items@.subrange(0, k + 1).last() == items@[k as int]);
                    assert(acc@.drop_last() =~= acc0);
                    assert(records_v(acc@) =~= records_v(acc0).push(rv));
                    assert(spec_records_seq(items@.subrange(0, k + 1)) == Option::Some(
                        records_v(acc@),
                    ));
                }
            },
        }
        k = k + 1;
    }
    proof {
        assert(items@.subrange(0, items@.len() as int) =~= items@);
    }
    Option::Some(acc)
}

/// Validates a whole index document.
pub fn index_from_json(j: &Json) -> (r: Result<IndexFile, StoreError>)
    ensures
        match r {
            Result::Ok(idx) => spec_index_of(*j) == Option::Some(idx@),
            Result::Err(e) => spec_index_of(*j) is None && e == StoreError::InvalidIndexFormat,
        },
{
    match j {
        Json::Obj(entries) => {
            match obj_get_exec(entries, "images") {
                Option::Some(Json::Arr(items)) => {
                    match records_vec_exec(items) {
                        Option::Some(images) => Result::Ok(IndexFile { images }),
                        Option::None => Result::Err(StoreError::InvalidIndexFormat),
                    }
                },
                Option::Some(_) => Result::Err(StoreError::InvalidIndexFormat),
                Option::None => Result::Err(StoreError::InvalidIndexFormat),
            }
        },
        _ => Result::Err(StoreError::InvalidIndexFormat),
    }
}

/// Parses and validates a whole index document from its JSON text: it
/// succeeds exactly when the text is one well-formed JSON document
/// whose denoted value matches the index schema, and then returns
/// exactly the records that value denotes.
pub fn index_from_text(s: &str) -> (r: Result<IndexFile, StoreError>)
    ensures
        match r {
            Result::Ok(idx) => index_of_text(s@) == Option::Some(idx@),
            Result::Err(e) => index_of_text(s@) is None && e == StoreError::InvalidIndexFormat,
        },
{
    match parse_json_text(s) {
        Result::Err(e) => Result::Err(e),
        Result::Ok(j) => match index_from_json(&j) {
            Result::Ok(idx) => {
                proof {
                    lemma_index_bridge(j);
                    assert(index_of_text(s@) == Option::Some(idx@));
                }
                Result::Ok(idx)
            },
            Result::Err(e) => {
                proof {
                    lemma_index_bridge(j);
                    assert(index_of_text(s@) is None);
                }
                Result::Err(e)
            },
        },
    }
}

/// Parses and validates one record from its JSON text: it succeeds
/// exactly when the text is one well-formed JSON document whose denoted
/// value matches the record schema, and then returns exactly the record
/// that value denotes.
pub fn record_from_text(s: &str) -> (r: Result<ImageRecord, StoreError>)
    ensures
        match r {
            Result::Ok(rec) => record_of_text(s@) == Option::Some(rec@),
            Result::Err(e) => record_of_text(s@) is None && e == StoreError::InvalidIndexFormat,
        },
{
    match parse_json_text(s) {
        Result::Err(e) => Result::Err(e),
        Result::Ok(j) => match record_of_exec(&j) {
            Option::Some(rec) => {
                proof {
                    lemma_record_bridge(j);
                    assert(record_of_text(s@) == Option::Some(rec@));
                }
                Result::Ok(rec)
            },
            Option::None => {
                proof {
                    lemma_record_bridge(j);
                    assert(record_of_text(s@) is None);
                }
                Result::Err(StoreError::InvalidIndexFormat)
            },
        },
    }
}

/// The mathematical view of a JSON value: every payload a spec value.
#[verifier::ext_equal]
pub enum JsonV {
    Null,
    Bool(bool),
    Num(Seq<char>),
    Str(Seq<char>),
    Arr(Seq<JsonV>),
    Obj(Seq<(Seq<char>, JsonV)>),
}

/// The view of a parsed JSON value.
pub open spec fn jv(j: Json) -> JsonV
    decreases j,
{
    match j {
        Json::Null => JsonV::Null,
        Json::Bool(b) => JsonV::Bool(b),
        Json::Num(s) => JsonV::Num(s@),
        Json::Str(s) => JsonV::Str(s@),
        Json::Arr(items) => JsonV::Arr(
            Seq::new(
                items@.len(),
                |i: int|
                    if 0 <= i < items@.len() {
                        jv(items@[i])
                    } else {
                        JsonV::Null
                    },
            ),
        ),
        Json::Obj(entries) => JsonV::Obj(
            Seq::new(
                entries@.len(),
                |i: int|
                    if 0 <= i < entries@.len() {
                        (entries@[i].0@, jv(entries@[i].1))
                    } else {
                        (Seq::empty(), JsonV::Null)
                    },
            ),
        ),
    }
}

/// The views of a parsed element sequence.
pub open spec fn jv_items(items: Seq<Json>) -> Seq<JsonV> {
    Seq::new(
        items.len(),
        |i: int|
            if 0 <= i < items.len() {
                jv(items[i])
            } else {
                JsonV::Null
            },
    )
}

/// The views of a parsed entry sequence.
pub open spec fn jv_entries(entries: Seq<(String, Json)>) -> Seq<(Seq<char>, JsonV)> {
    Seq::new(
        entries.len(),
        |i: int|
            if 0 <= i < entries.len() {
                (entries[i].0@, jv(entries[i].1))
            } else {
                (Seq::empty(), JsonV::Null)
            },
    )
}

/// The view of a parsed array is the views of its elements.
pub proof fn lemma_jv_arr(items: Vec<Json>)
    ensures
        jv(Json::Arr(items)) == JsonV::Arr(jv_items(items@)),
{
    assert(jv(Json::Arr(items))->Arr_0 =~= jv_items(items@));
    assert(jv(Json::Arr(items)) =~~= JsonV::Arr(jv_items(items@)));
}

/// The view of a parsed object is the views of its entries.
pub proof fn lemma_jv_obj(entries: Vec<(String, Json)>)
    ensures
        jv(Json::Obj(entries)) == JsonV::Obj(jv_entries(entries@)),
{
    assert(jv(Json::Obj(entries))->Obj_0 =~= jv_entries(entries@));
    assert(jv(Json::Obj(entries)) =~~= JsonV::Obj(jv_entries(entries@)));
}

/// Loads an index from its JSON text, substituting the empty index when
/// the text does not denote a valid one: the lenient reading that the
/// save path applies to a corrupt index file, where the strict paths
/// surface an error instead.
pub fn index_from_text_or_empty(s: &str) -> (r: IndexFile)
    ensures
        match index_of_text(s@) {
            Option::Some(rs) => r@ == rs,
            Option::None => r@ == Seq::<RecordV>::empty(),
        },
{
    match index_from_text(s) {
        Result::Ok(idx) => idx,
        Result::Err(_) => {
            let idx = IndexFile { images: Vec::new() };
            proof {
                assert(idx@ =~= Seq::<RecordV>::empty());
            }
            idx
        },
    }
}

} // verus!

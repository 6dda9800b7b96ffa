//! The mathematical model of the tracking parser: a family of spec functions
//! that consume a sequence of Unicode scalar values from a cursor position,
//! following the JSON grammar, while recording source locations per JSON
//! pointer. The executable parser is proved to return exactly what this
//! model says.

use vstd::prelude::*;

use crate::types::{Error, Location, LocationMap, Prop, SpecValue};

verus! {

/// The parser's position state: character index, line, and column.
pub ghost struct Cursor {
    pub pos: nat,
    pub line: nat,
    pub column: nat,
}

/// The starting cursor: everything zero.
pub open spec fn start_cursor() -> Cursor {
    Cursor { pos: 0, line: 0, column: 0 }
}

/// Consuming one non-whitespace character: position and column grow by one.
pub open spec fn advance(cur: Cursor) -> Cursor {
    Cursor { pos: cur.pos + 1, line: cur.line, column: cur.column + 1 }
}

/// Backing up by one character: position and column shrink by one.
pub open spec fn retreat(cur: Cursor) -> Cursor {
    Cursor { pos: (cur.pos - 1) as nat, line: cur.line, column: (cur.column - 1) as nat }
}

/// The four JSON whitespace characters.
pub open spec fn is_ws(c: char) -> bool {
    c == ' ' || c == '\t' || c == '\r' || c == '\n'
}

/// Column accounting while skipping whitespace: a space advances the column
/// by 1, a tab by 4, a carriage return resets the column without touching the
/// line, and a line feed resets the column and increments the line.
pub open spec fn ws_advance(c: char, cur: Cursor) -> Cursor {
    if c == ' ' {
        Cursor { pos: cur.pos + 1, line: cur.line, column: cur.column + 1 }
    } else if c == '\t' {
        Cursor { pos: cur.pos + 1, line: cur.line, column: cur.column + 4 }
    } else if c == '\r' {
        Cursor { pos: cur.pos + 1, line: cur.line, column: 0 }
    } else {
        Cursor { pos: cur.pos + 1, line: cur.line + 1, column: 0 }
    }
}

/// The cursor after consuming the longest run of whitespace at `cur`.
pub open spec fn skip_ws(s: Seq<char>, cur: Cursor) -> Cursor
    decreases s.len() - cur.pos,
{
    if cur.pos < s.len() && is_ws(s[cur.pos as int]) {
        skip_ws(s, ws_advance(s[cur.pos as int], cur))
    } else {
        cur
    }
}

/// Skipping whitespace never moves the cursor backwards.
pub proof fn lemma_skip_ws_mono(s: Seq<char>, cur: Cursor)
    ensures
        skip_ws(s, cur).pos >= cur.pos,
    decreases s.len() - cur.pos,
{
    if cur.pos < s.len() && is_ws(s[cur.pos as int]) {
        lemma_skip_ws_mono(s, ws_advance(s[cur.pos as int], cur));
    }
}

/// Skipping whitespace never moves the cursor past the end of the input.
pub proof fn lemma_skip_ws_bound(s: Seq<char>, cur: Cursor)
    requires
        cur.pos <= s.len(),
    ensures
        skip_ws(s, cur).pos <= s.len(),
    decreases s.len() - cur.pos,
{
    if cur.pos < s.len() && is_ws(s[cur.pos as int]) {
        lemma_skip_ws_bound(s, ws_advance(s[cur.pos as int], cur));
    }
}

/// The source location a cursor denotes.
pub open spec fn loc_of(cur: Cursor) -> Location {
    Location { line: cur.line as usize, column: cur.column as usize, pos: cur.pos as usize }
}

/// A token error naming the offending character and its character position.
pub open spec fn token_err(c: char, pos: nat) -> Error {
    Error::UnexpectedToken(c, pos as usize)
}

/// Outcome of a token-level production: a value and the cursor after it,
/// or the error that aborted the parse.
pub ghost enum TokStep<T> {
    Parsed { v: T, cur: Cursor },
    Failed { e: Error },
}

/// The pointer table: locations per JSON pointer.
pub type SpecTable = Map<Seq<char>, LocationMap>;

/// Outcome of a value-level production: a value, the cursor after it, and
/// the pointer table so far, or the error that aborted the parse.
pub ghost enum ValStep<T> {
    Parsed { v: T, cur: Cursor, tbl: SpecTable },
    Failed { e: Error },
}

/// The locations recorded so far for `ptr`, or the empty record.
pub open spec fn tbl_lm(tbl: SpecTable, ptr: Seq<char>) -> LocationMap {
    if tbl.contains_key(ptr) {
        tbl[ptr]
    } else {
        LocationMap::spec_empty()
    }
}

/// Record `loc` in role `prop` for pointer `ptr`.
pub open spec fn tbl_set(tbl: SpecTable, ptr: Seq<char>, prop: Prop, loc: Location) -> SpecTable {
    tbl.insert(ptr, tbl_lm(tbl, ptr).spec_set(prop, loc))
}

/// Matching an exact literal tail, character by character.
pub open spec fn s_expect(s: Seq<char>, cur: Cursor, t: Seq<char>) -> TokStep<()>
    decreases t.len(),
{
    if t.len() == 0 {
        TokStep::Parsed { v: (), cur }
    } else if cur.pos >= s.len() {
        TokStep::Failed { e: Error::UnexpectedEof }
    } else if s[cur.pos as int] == t[0] {
        s_expect(s, advance(cur), t.skip(1))
    } else {
        TokStep::Failed { e: token_err(s[cur.pos as int], cur.pos) }
    }
}

/// A decimal digit.
pub open spec fn is_digit_char(c: char) -> bool {
    48 <= c as u32 && c as u32 <= 57
}

/// An ASCII hexadecimal digit.
pub open spec fn is_hex_char(c: char) -> bool {
    is_digit_char(c) || (97 <= c as u32 && c as u32 <= 102) || (65 <= c as u32 && c as u32 <= 70)
}

/// The numeric value of a hexadecimal digit.
pub open spec fn hex_val(c: char) -> u32 {
    if is_digit_char(c) {
        (c as u32 - 48) as u32
    } else if 97 <= c as u32 && c as u32 <= 102 {
        (c as u32 - 87) as u32
    } else {
        (c as u32 - 55) as u32
    }
}

/// Consuming one character that must be a hexadecimal digit.
pub open spec fn hex_step(s: Seq<char>, cur: Cursor) -> TokStep<u32> {
    if cur.pos >= s.len() {
        TokStep::Failed { e: Error::UnexpectedEof }
    } else if !is_hex_char(s[cur.pos as int]) {
        TokStep::Failed { e: token_err(s[cur.pos as int], cur.pos) }
    } else {
        TokStep::Parsed { v: hex_val(s[cur.pos as int]), cur: advance(cur) }
    }
}

/// Consuming the 4 hexadecimal digits of a `\uXXXX` escape and converting
/// them to the Unicode scalar value they name. A code point that is not a
/// valid scalar value (such as a lone surrogate half) is rejected; note that
/// surrogate pairs are not recombined — each escape resolves independently.
pub open spec fn s_char_code(s: Seq<char>, cur: Cursor) -> TokStep<char> {
    match hex_step(s, cur) {
        TokStep::Failed { e } => TokStep::Failed { e },
        TokStep::Parsed { v: d1, cur: c1 } => match hex_step(s, c1) {
            TokStep::Failed { e } => TokStep::Failed { e },
            TokStep::Parsed { v: d2, cur: c2 } => match hex_step(s, c2) {
                TokStep::Failed { e } => TokStep::Failed { e },
                TokStep::Parsed { v: d3, cur: c3 } => match hex_step(s, c3) {
                    TokStep::Failed { e } => TokStep::Failed { e },
                    TokStep::Parsed { v: d4, cur: c4 } => {
                        let code = (d1 * 4096 + d2 * 256 + d3 * 16 + d4) as u32;
                        if vstd::utf8::is_scalar(code) {
                            TokStep::Parsed { v: code as char, cur: c4 }
                        } else {
                            TokStep::Failed {
                                e: Error::InvalidUnicodeCodePoint(code, c4.pos as usize),
                            }
                        }
                    },
                },
            },
        },
    }
}

/// The simple one-character escapes allowed after a backslash.
pub open spec fn is_simple_escape(c: char) -> bool {
    c == 'b' || c == 'f' || c == 'n' || c == 'r' || c == 't' || c == '"' || c == '/' || c == '\\'
}

/// The character a simple escape stands for.
pub open spec fn escape_char(c: char) -> char {
    if c == 'b' {
        '\u{0008}'
    } else if c == 'f' {
        '\u{000C}'
    } else if c == 'n' {
        '\n'
    } else if c == 'r' {
        '\r'
    } else if c == 't' {
        '\t'
    } else {
        c
    }
}

/// The body of a string token, starting just after the opening quote and
/// consuming through the closing quote. Yields the decoded character
/// sequence (escapes resolved, quotes not included).
pub open spec fn s_string(s: Seq<char>, cur: Cursor) -> TokStep<Seq<char>>
    decreases s.len() - cur.pos,
{
    if cur.pos >= s.len() {
        TokStep::Failed { e: Error::UnexpectedEof }
    } else {
        let c = s[cur.pos as int];
        let cur1 = advance(cur);
        if c == '"' {
            TokStep::Parsed { v: Seq::empty(), cur: cur1 }
        } else if c == '\\' {
            if cur1.pos >= s.len() {
                TokStep::Failed { e: Error::UnexpectedEof }
            } else {
                let esc = s[cur1.pos as int];
                let cur2 = advance(cur1);
                if is_simple_escape(esc) {
                    match s_string(s, cur2) {
                        TokStep::Parsed { v, cur: c3 } => TokStep::Parsed {
                            v: seq![escape_char(esc)] + v,
                            cur: c3,
                        },
                        TokStep::Failed { e } => TokStep::Failed { e },
                    }
                } else if esc == 'u' {
                    match s_char_code(s, cur2) {
                        TokStep::Failed { e } => TokStep::Failed { e },
                        TokStep::Parsed { v: ch, cur: c3 } => match s_string(s, c3) {
                            TokStep::Parsed { v, cur: c4 } => TokStep::Parsed {
                                v: seq![ch] + v,
                                cur: c4,
                            },
                            TokStep::Failed { e } => TokStep::Failed { e },
                        },
                    }
                } else {
                    TokStep::Failed { e: token_err(esc, cur1.pos) }
                }
            }
        } else {
            match s_string(s, cur1) {
                TokStep::Parsed { v, cur: c3 } => TokStep::Parsed { v: seq![c] + v, cur: c3 },
                TokStep::Failed { e } => TokStep::Failed { e },
            }
        }
    }
}

/// A successfully parsed string token always consumes at least one
/// character (its closing quote).
pub proof fn lemma_s_string_mono(s: Seq<char>, cur: Cursor)
    ensures
        s_string(s, cur) matches TokStep::Parsed { cur: c2, .. } ==> c2.pos > cur.pos,
    decreases s.len() - cur.pos,
{
    if cur.pos < s.len() {
        let c = s[cur.pos as int];
        let cur1 = advance(cur);
        if c == '"' {
        } else if c == '\\' {
            if cur1.pos < s.len() {
                let esc = s[cur1.pos as int];
                let cur2 = advance(cur1);
                if is_simple_escape(esc) {
                    lemma_s_string_mono(s, cur2);
                } else if esc == 'u' {
                    match s_char_code(s, cur2) {
                        TokStep::Parsed { cur: c3, .. } => lemma_s_string_mono(s, c3),
                        TokStep::Failed { .. } => (),
                    }
                }
            }
        } else {
            lemma_s_string_mono(s, cur1);
        }
    }
}

/// The cursor after the longest run of decimal digits at `cur`.
pub open spec fn s_digits(s: Seq<char>, cur: Cursor) -> Cursor
    decreases s.len() - cur.pos,
{
    if cur.pos < s.len() && is_digit_char(s[cur.pos as int]) {
        s_digits(s, advance(cur))
    } else {
        cur
    }
}

/// Consuming a digit run never moves the cursor backwards.
pub proof fn lemma_s_digits_mono(s: Seq<char>, cur: Cursor)
    ensures
        s_digits(s, cur).pos >= cur.pos,
    decreases s.len() - cur.pos,
{
    if cur.pos < s.len() && is_digit_char(s[cur.pos as int]) {
        lemma_s_digits_mono(s, advance(cur));
    }
}

/// The cursor after a number token starting at `cur`: an optional minus
/// sign; a single `0` or a digit run; an optional fraction (`.` then a digit
/// run); an optional exponent (`e`/`E`, an optional sign, then a digit run).
/// Digit runs may be empty; this leniency is deliberate and documented.
/// The token's literal text is the consumed substring, kept verbatim.
pub open spec fn s_number_end(s: Seq<char>, cur: Cursor) -> Cursor {
    let c1 = if cur.pos < s.len() && s[cur.pos as int] == '-' {
        advance(cur)
    } else {
        cur
    };
    let c2 = if c1.pos < s.len() && s[c1.pos as int] == '0' {
        advance(c1)
    } else {
        s_digits(s, c1)
    };
    let c3 = if c2.pos < s.len() && s[c2.pos as int] == '.' {
        s_digits(s, advance(c2))
    } else {
        c2
    };
    if c3.pos < s.len() && (s[c3.pos as int] == 'e' || s[c3.pos as int] == 'E') {
        let c4 = advance(c3);
        let c5 = if c4.pos < s.len() && (s[c4.pos as int] == '+' || s[c4.pos as int] == '-') {
            advance(c4)
        } else {
            c4
        };
        s_digits(s, c5)
    } else {
        c3
    }
}

/// A number token starting at a minus sign or digit consumes at least one
/// character.
pub proof fn lemma_s_number_end_strict(s: Seq<char>, cur: Cursor)
    requires
        cur.pos < s.len(),
        s[cur.pos as int] == '-' || is_digit_char(s[cur.pos as int]),
    ensures
        s_number_end(s, cur).pos > cur.pos,
{
    let c1 = if cur.pos < s.len() && s[cur.pos as int] == '-' {
        advance(cur)
    } else {
        cur
    };
    let c2 = if c1.pos < s.len() && s[c1.pos as int] == '0' {
        advance(c1)
    } else {
        s_digits(s, c1)
    };
    lemma_s_digits_mono(s, c1);
    if s[cur.pos as int] != '-' && !(c1.pos < s.len() && s[c1.pos as int] == '0') {
        lemma_s_digits_mono(s, advance(cur));
        assert(s_digits(s, cur) == s_digits(s, advance(cur)));
    }
    assert(c2.pos > cur.pos);
    if c2.pos < s.len() && s[c2.pos as int] == '.' {
        lemma_s_digits_mono(s, advance(c2));
    }
    let c3 = if c2.pos < s.len() && s[c2.pos as int] == '.' {
        s_digits(s, advance(c2))
    } else {
        c2
    };
    assert(c3.pos > cur.pos);
    if c3.pos < s.len() && (s[c3.pos as int] == 'e' || s[c3.pos as int] == 'E') {
        let c4 = advance(c3);
        let c5 = if c4.pos < s.len() && (s[c4.pos as int] == '+' || s[c4.pos as int] == '-') {
            advance(c4)
        } else {
            c4
        };
        lemma_s_digits_mono(s, c5);
    }
}

/// The decimal digit character for `d` (where `d < 10`).
pub open spec fn digit_char(d: nat) -> char {
    ((48 + d) as u8) as char
}

/// The decimal representation of `n`, most significant digit first.
pub open spec fn dec_digits(n: nat) -> Seq<char>
    decreases n,
{
    if n < 10 {
        seq![digit_char(n)]
    } else {
        dec_digits(n / 10).push(digit_char(n % 10))
    }
}

/// How one character of an object key appears in a JSON pointer segment:
/// `~` becomes `~0`, `/` becomes `~1`, anything else stands for itself.
pub open spec fn esc_char(c: char) -> Seq<char> {
    if c == '~' {
        seq!['~', '0']
    } else if c == '/' {
        seq!['~', '1']
    } else {
        seq![c]
    }
}

/// RFC 6901 escaping of an object key into a pointer segment.
pub open spec fn escape_seg(s: Seq<char>) -> Seq<char>
    decreases s.len(),
{
    if s.len() == 0 {
        Seq::empty()
    } else {
        escape_seg(s.drop_last()) + esc_char(s.last())
    }
}

/// RFC 6901 unescaping of a pointer segment: `~1` becomes `/` and `~0`
/// becomes `~` (decoding `~1` before `~0`, as the RFC prescribes, so the
/// two-character run introduced for a literal `/` is never decoded twice).
pub open spec fn unescape_seg(s: Seq<char>) -> Seq<char>
    decreases s.len(),
{
    if s.len() == 0 {
        Seq::empty()
    } else if s.len() >= 2 && s[s.len() - 2] == '~' && (s.last() == '0' || s.last() == '1') {
        unescape_seg(s.take(s.len() - 2)) + (if s.last() == '0' {
            seq!['~']
        } else {
            seq!['/']
        })
    } else {
        unescape_seg(s.drop_last()) + seq![s.last()]
    }
}

/// An escaped segment never ends in a bare `~`.
proof fn lemma_escape_seg_no_trailing_tilde(s: Seq<char>)
    ensures
        escape_seg(s).len() == 0 || escape_seg(s).last() != '~',
    decreases s.len(),
{
    if s.len() > 0 {
        lemma_escape_seg_no_trailing_tilde(s.drop_last());
    }
}

/// Pointer escaping round-trips: unescaping an escaped object key (per RFC
/// 6901, `~1` before `~0`) reconstructs the original key exactly.
pub proof fn lemma_pointer_escape_round_trip(s: Seq<char>)
    ensures
        unescape_seg(escape_seg(s)) == s,
    decreases s.len(),
{
    if s.len() > 0 {
        let p = s.drop_last();
        let c = s.last();
        lemma_pointer_escape_round_trip(p);
        lemma_escape_seg_no_trailing_tilde(p);
        let e = escape_seg(s);
        if c == '~' || c == '/' {
            assert(e.take(e.len() - 2) =~= escape_seg(p));
        } else {
            assert(e.len() < 2 || e[e.len() - 2] != '~' || !(e.last() == '0' || e.last() == '1'))
                by {
                if e.len() >= 2 {
                    assert(e[e.len() - 2] == escape_seg(p).last());
                }
            }
            assert(e.drop_last() =~= escape_seg(p));
        }
        assert(unescape_seg(escape_seg(s)) =~= s);
    }
}

/// Inserting a member into an object: a duplicate key keeps its place and
/// its value is overwritten (last write wins); a new key is appended.
pub open spec fn obj_insert(
    ms: Seq<(Seq<char>, SpecValue)>,
    k: Seq<char>,
    v: SpecValue,
) -> Seq<(Seq<char>, SpecValue)>
    decreases ms.len(),
{
    if ms.len() == 0 {
        seq![(k, v)]
    } else if ms[0].0 == k {
        seq![(k, v)] + ms.skip(1)
    } else {
        seq![ms[0]] + obj_insert(ms.skip(1), k, v)
    }
}

/// Inserting an already-present key updates the first entry holding it.
pub proof fn lemma_obj_insert_found(
    ms: Seq<(Seq<char>, SpecValue)>,
    i: int,
    k: Seq<char>,
    v: SpecValue,
)
    requires
        0 <= i < ms.len(),
        ms[i].0 == k,
        forall|j: int| 0 <= j < i ==> ms[j].0 != k,
    ensures
        obj_insert(ms, k, v) == ms.update(i, (k, v)),
    decreases ms.len(),
{
    if i == 0 {
        assert(seq![(k, v)] + ms.skip(1) =~= ms.update(0, (k, v)));
    } else {
        assert(ms.skip(1)[i - 1] == ms[i]);
        assert(forall|j: int| 0 <= j < i - 1 ==> ms.skip(1)[j] == ms[j + 1]);
        lemma_obj_insert_found(ms.skip(1), i - 1, k, v);
        assert(seq![ms[0]] + ms.skip(1).update(i - 1, (k, v)) =~= ms.update(i, (k, v)));
    }
}

/// Inserting a fresh key appends the member.
pub proof fn lemma_obj_insert_absent(ms: Seq<(Seq<char>, SpecValue)>, k: Seq<char>, v: SpecValue)
    requires
        forall|j: int| 0 <= j < ms.len() ==> ms[j].0 != k,
    ensures
        obj_insert(ms, k, v) == ms.push((k, v)),
    decreases ms.len(),
{
    if ms.len() == 0 {
        assert(seq![(k, v)] =~= ms.push((k, v)));
    } else {
        assert(forall|j: int| 0 <= j < ms.skip(1).len() ==> ms.skip(1)[j] == ms[j + 1]);
        lemma_obj_insert_absent(ms.skip(1), k, v);
        assert(seq![ms[0]] + ms.skip(1).push((k, v)) =~= ms.push((k, v)));
    }
}

/// One JSON value at pointer `ptr`: skip whitespace, record `Value`,
/// dispatch on the first character, record `ValueEnd` after the token, skip
/// trailing whitespace, and — at top level only — require end of input.
pub open spec fn s_value(
    s: Seq<char>,
    ptr: Seq<char>,
    cur: Cursor,
    tbl: SpecTable,
    top: bool,
) -> ValStep<SpecValue>
    decreases s.len() - cur.pos, 2int,
{
    let cur0 = skip_ws(s, cur);
    let tbl0 = tbl_set(tbl, ptr, Prop::Value, loc_of(cur0));
    if cur0.pos >= s.len() {
        ValStep::Failed { e: Error::UnexpectedEof }
    } else {
        proof {
            lemma_skip_ws_mono(s, cur);
        }
        let c = s[cur0.pos as int];
        let cur1 = advance(cur0);
        let step: ValStep<SpecValue> = if c == 't' {
            match s_expect(s, cur1, seq!['r', 'u', 'e']) {
                TokStep::Parsed { cur: c2, .. } => ValStep::Parsed {
                    v: SpecValue::Bool(true),
                    cur: c2,
                    tbl: tbl0,
                },
                TokStep::Failed { e } => ValStep::Failed { e },
            }
        } else if c == 'f' {
            match s_expect(s, cur1, seq!['a', 'l', 's', 'e']) {
                TokStep::Parsed { cur: c2, .. } => ValStep::Parsed {
                    v: SpecValue::Bool(false),
                    cur: c2,
                    tbl: tbl0,
                },
                TokStep::Failed { e } => ValStep::Failed { e },
            }
        } else if c == 'n' {
            match s_expect(s, cur1, seq!['u', 'l', 'l']) {
                TokStep::Parsed { cur: c2, .. } => ValStep::Parsed {
                    v: SpecValue::Null,
                    cur: c2,
                    tbl: tbl0,
                },
                TokStep::Failed { e } => ValStep::Failed { e },
            }
        } else if c == '"' {
            match s_string(s, cur1) {
                TokStep::Parsed { v, cur: c2 } => ValStep::Parsed {
                    v: SpecValue::Str(v),
                    cur: c2,
                    tbl: tbl0,
                },
                TokStep::Failed { e } => ValStep::Failed { e },
            }
        } else if c == '[' {
            match s_array(s, ptr, cur1, tbl0) {
                ValStep::Parsed { v, cur: c2, tbl: t2 } => ValStep::Parsed {
                    v: SpecValue::Array(v),
                    cur: c2,
                    tbl: t2,
                },
                ValStep::Failed { e } => ValStep::Failed { e },
            }
        } else if c == '{' {
            match s_object(s, ptr, cur1, tbl0) {
                ValStep::Parsed { v, cur: c2, tbl: t2 } => ValStep::Parsed {
                    v: SpecValue::Object(v),
                    cur: c2,
                    tbl: t2,
                },
                ValStep::Failed { e } => ValStep::Failed { e },
            }
        } else if c == '-' || is_digit_char(c) {
            let c2 = s_number_end(s, cur0);
            ValStep::Parsed {
                v: SpecValue::Number(s.subrange(cur0.pos as int, c2.pos as int)),
                cur: c2,
                tbl: tbl0,
            }
        } else {
            // The dispatcher reports the cursor position after reading `c`.
            ValStep::Failed { e: token_err(c, cur1.pos) }
        };
        match step {
            ValStep::Failed { e } => ValStep::Failed { e },
            ValStep::Parsed { v, cur: c3, tbl: t3 } => {
                let t4 = tbl_set(t3, ptr, Prop::ValueEnd, loc_of(c3));
                let c4 = skip_ws(s, c3);
                if top && c4.pos < s.len() {
                    ValStep::Failed { e: token_err(s[c4.pos as int], c4.pos) }
                } else {
                    ValStep::Parsed { v, cur: c4, tbl: t4 }
                }
            },
        }
    }
}

/// An array body, starting just after the opening bracket.
pub open spec fn s_array(
    s: Seq<char>,
    ptr: Seq<char>,
    cur: Cursor,
    tbl: SpecTable,
) -> ValStep<Seq<SpecValue>>
    decreases s.len() - cur.pos, 4int,
{
    let cur0 = skip_ws(s, cur);
    if cur0.pos >= s.len() {
        ValStep::Failed { e: Error::UnexpectedEof }
    } else if s[cur0.pos as int] == ']' {
        ValStep::Parsed { v: Seq::empty(), cur: advance(cur0), tbl }
    } else {
        proof {
            lemma_skip_ws_mono(s, cur);
        }
        s_array_items(s, ptr, cur0, tbl, Seq::empty())
    }
}

/// The members of a non-empty array: one value at pointer `ptr/<index>` per
/// element, elements separated by commas, closed by a bracket. The index is
/// the number of elements already collected in `acc`. Parsing a value always
/// consumes at least one character, which bounds the recursion.
pub open spec fn s_array_items(
    s: Seq<char>,
    ptr: Seq<char>,
    cur: Cursor,
    tbl: SpecTable,
    acc: Seq<SpecValue>,
) -> ValStep<Seq<SpecValue>>
    decreases s.len() - cur.pos, 3int,
{
    let child = ptr + seq!['/'] + dec_digits(acc.len());
    match s_value(s, child, cur, tbl, false) {
        ValStep::Failed { e } => ValStep::Failed { e },
        ValStep::Parsed { v, cur: c1, tbl: t1 } => {
            let acc1 = acc.push(v);
            let c2 = skip_ws(s, c1);
            if c2.pos >= s.len() {
                ValStep::Failed { e: Error::UnexpectedEof }
            } else {
                let ch = s[c2.pos as int];
                let c3 = advance(c2);
                if ch == ']' {
                    ValStep::Parsed { v: acc1, cur: c3, tbl: t1 }
                } else if ch == ',' {
                    let c4 = skip_ws(s, c3);
                    proof {
                        lemma_skip_ws_bound(s, c3);
                    }
                    if c4.pos > cur.pos {
                        s_array_items(s, ptr, c4, t1, acc1)
                    } else {
                        ValStep::Failed { e: Error::UnexpectedEof }
                    }
                } else {
                    ValStep::Failed { e: token_err(ch, c2.pos) }
                }
            }
        },
    }
}

/// An object body, starting just after the opening brace.
pub open spec fn s_object(
    s: Seq<char>,
    ptr: Seq<char>,
    cur: Cursor,
    tbl: SpecTable,
) -> ValStep<Seq<(Seq<char>, SpecValue)>>
    decreases s.len() - cur.pos, 4int,
{
    let cur0 = skip_ws(s, cur);
    if cur0.pos >= s.len() {
        ValStep::Failed { e: Error::UnexpectedEof }
    } else if s[cur0.pos as int] == '}' {
        ValStep::Parsed { v: Seq::empty(), cur: advance(cur0), tbl }
    } else {
        proof {
            lemma_skip_ws_mono(s, cur);
        }
        s_object_items(s, ptr, cur0, tbl, Seq::empty())
    }
}

/// The members of a non-empty object: a quoted key (whose start and end are
/// recorded as `Key`/`KeyEnd` under the member's pointer `ptr/<escaped
/// key>`), a colon, a value at that pointer, members separated by commas,
/// closed by a brace. A duplicate key overwrites the earlier value.
pub open spec fn s_object_items(
    s: Seq<char>,
    ptr: Seq<char>,
    cur: Cursor,
    tbl: SpecTable,
    acc: Seq<(Seq<char>, SpecValue)>,
) -> ValStep<Seq<(Seq<char>, SpecValue)>>
    decreases s.len() - cur.pos, 3int,
{
    if cur.pos >= s.len() {
        ValStep::Failed { e: Error::UnexpectedEof }
    } else if s[cur.pos as int] != '"' {
        ValStep::Failed { e: token_err(s[cur.pos as int], cur.pos) }
    } else {
        match s_string(s, advance(cur)) {
            TokStep::Failed { e } => ValStep::Failed { e },
            TokStep::Parsed { v: key, cur: c1 } => {
                let child = ptr + seq!['/'] + escape_seg(key);
                let tbl1 = tbl_set(tbl, child, Prop::Key, loc_of(cur));
                let tbl2 = tbl_set(tbl1, child, Prop::KeyEnd, loc_of(c1));
                let c2 = skip_ws(s, c1);
                if c2.pos >= s.len() {
                    ValStep::Failed { e: Error::UnexpectedEof }
                } else if s[c2.pos as int] != ':' {
                    ValStep::Failed { e: token_err(s[c2.pos as int], c2.pos) }
                } else {
                    let c3 = skip_ws(s, advance(c2));
                    proof {
                        lemma_s_string_mono(s, advance(cur));
                        lemma_skip_ws_mono(s, c1);
                        lemma_skip_ws_mono(s, advance(c2));
                        lemma_skip_ws_bound(s, advance(c2));
                    }
                    match s_value(s, child, c3, tbl2, false) {
                        ValStep::Failed { e } => ValStep::Failed { e },
                        ValStep::Parsed { v, cur: c4, tbl: t4 } => {
                            let acc1 = obj_insert(acc, key, v);
                            let c5 = skip_ws(s, c4);
                            if c5.pos >= s.len() {
                                ValStep::Failed { e: Error::UnexpectedEof }
                            } else {
                                let ch = s[c5.pos as int];
                                let c6 = advance(c5);
                                if ch == '}' {
                                    ValStep::Parsed { v: acc1, cur: c6, tbl: t4 }
                                } else if ch == ',' {
                                    let c7 = skip_ws(s, c6);
                                    proof {
                                        lemma_skip_ws_bound(s, c6);
                                    }
                                    if c7.pos > cur.pos {
                                        s_object_items(s, ptr, c7, t4, acc1)
                                    } else {
                                        ValStep::Failed { e: Error::UnexpectedEof }
                                    }
                                } else {
                                    ValStep::Failed { e: token_err(ch, c5.pos) }
                                }
                            }
                        },
                    }
                }
            },
        }
    }
}

} // verus!

//! The tracking parser: a recursive-descent JSON parser over a pre-decoded
//! sequence of Unicode scalar values. It parses one document and records,
//! for every node's JSON Pointer, the source span of its key and its value.
//! Every function is proved to return exactly what the model in
//! [`crate::model`] says.

use vstd::prelude::*;
use vstd::string::StrSliceExecFns;
use vstd::string::StringExecFns;

use crate::model::{
    advance, dec_digits, esc_char, escape_char, escape_seg, hex_step, hex_val, is_digit_char,
    is_hex_char, is_simple_escape, is_ws, lemma_obj_insert_absent, lemma_obj_insert_found,
    lemma_s_number_end_strict, lemma_skip_ws_mono, loc_of, obj_insert, retreat, s_array,
    s_array_items, s_char_code, s_digits, s_expect, s_number_end, s_object, s_object_items,
    s_string, s_value, skip_ws, start_cursor, tbl_set, token_err, Cursor, SpecTable, TokStep,
    ValStep,
};
use crate::table::PointerTable;
use crate::text::{fmt_usize, str_eq};
use crate::types::{
    items_view, lemma_array_deep_view, lemma_object_deep_view, members_view, Error, JsonValue,
    Location, LocationMap, Options, Prop, SpecValue,
};

verus! {

/// The transient state of one parse call: the pre-decoded source, the
/// cursor, and the pointer table built so far.
struct Parser {
    source: Vec<char>,
    options: Options,
    line: usize,
    column: usize,
    pos: usize,
    pointers: PointerTable,
}

impl Parser {
    /// The source text as a sequence of Unicode scalar values.
    closed spec fn s(&self) -> Seq<char> {
        self.source@
    }

    /// The cursor state.
    closed spec fn cur(&self) -> Cursor {
        Cursor { pos: self.pos as nat, line: self.line as nat, column: self.column as nat }
    }

    /// The pointer table built so far.
    closed spec fn tbl(&self) -> SpecTable {
        self.pointers@
    }

    /// Parser well-formedness: the cursor stays within the source, the
    /// column never exceeds four columns per character consumed (so column
    /// arithmetic cannot overflow), and the table's keys are distinct.
    closed spec fn wf(&self) -> bool {
        &&& self.pos <= self.source@.len()
        &&& self.column <= 4 * self.pos
        &&& self.line <= self.pos
        &&& 4 * self.source@.len() + 4 <= usize::MAX
        &&& self.pointers.wf()
    }

    /// The source and options never change during a parse.
    closed spec fn same_doc(&self, other: &Parser) -> bool {
        self.source@ == other.source@ && self.options == other.options
    }

    fn new(source: &str, options: Options) -> (p: Parser)
        requires
            4 * source@.len() + 4 <= usize::MAX,
        ensures
            p.wf(),
            p.s() == source@,
            p.options == options,
            p.cur() == start_cursor(),
            p.tbl() == Map::<Seq<char>, LocationMap>::empty(),
    {
        let n = source.unicode_len();
        let mut chars: Vec<char> = Vec::new();
        let mut i: usize = 0;
        while i < n
            invariant
                i <= n,
                n as nat == source@.len(),
                chars@.len() == i as nat,
                forall|j: int| 0 <= j < i ==> chars@[j] == source@[j],
            decreases n - i,
        {
            chars.push(source.get_char(i));
            i += 1;
        }
        proof {
            assert(chars@ =~= source@);
        }
        Parser { source: chars, options, line: 0, column: 0, pos: 0, pointers: PointerTable::new() }
    }

    fn len(&self) -> (n: usize)
        ensures
            n == self.s().len(),
    {
        self.source.len()
    }

    /// One character of lookahead; the cursor does not move.
    fn next(&self) -> (c: char)
        requires
            self.pos < self.s().len(),
        ensures
            c == self.s()[self.pos as int],
    {
        self.source[self.pos]
    }

    fn is_ws_char(c: char) -> (r: bool)
        ensures
            r == is_ws(c),
    {
        c == ' ' || c == '\t' || c == '\r' || c == '\n'
    }

    fn is_digit(c: char) -> (r: bool)
        ensures
            r == is_digit_char(c),
    {
        let u = c as u32;
        48 <= u && u <= 57
    }

    fn is_hex(c: char) -> (r: bool)
        ensures
            r == is_hex_char(c),
    {
        let u = c as u32;
        (48 <= u && u <= 57) || (97 <= u && u <= 102) || (65 <= u && u <= 70)
    }

    /// Skip JSON whitespace, with the documented column accounting: space
    /// +1, tab +4, carriage return resets the column, line feed resets the
    /// column and increments the line.
    fn whitespace(&mut self)
        requires
            old(self).wf(),
        ensures
            final(self).wf(),
            final(self).same_doc(old(self)),
            final(self).pointers == old(self).pointers,
            final(self).cur() == skip_ws(old(self).s(), old(self).cur()),
            old(self).pos <= final(self).pos,
    {
        let ghost s = self.s();
        let ghost cur0 = self.cur();
        while self.pos < self.source.len() && Self::is_ws_char(self.source[self.pos])
            invariant
                self.wf(),
                self.s() == s,
                s == old(self).s(),
                cur0 == old(self).cur(),
                cur0.pos <= self.pos as nat,
                self.options == old(self).options,
                self.pointers == old(self).pointers,
                skip_ws(s, self.cur()) == skip_ws(s, cur0),
            decreases self.s().len() - self.pos,
        {
            let c = self.source[self.pos];
            if c == ' ' {
                self.column = self.column + 1;
            } else if c == '\t' {
                self.column = self.column + 4;
            } else if c == '\r' {
                self.column = 0;
            } else {
                self.line = self.line + 1;
                self.column = 0;
            }
            self.pos = self.pos + 1;
        }
    }

    fn check_unexpected_eof(&self) -> (r: Result<(), Error>)
        ensures
            self.pos < self.s().len() ==> r == Ok::<(), Error>(()),
            self.pos >= self.s().len() ==> r == Err::<(), Error>(Error::UnexpectedEof),
    {
        if self.pos >= self.source.len() {
            return Err(Error::UnexpectedEof);
        }
        Ok(())
    }

    /// Consume one character, advancing position and column by one.
    fn get_char(&mut self) -> (r: Result<char, Error>)
        requires
            old(self).wf(),
        ensures
            final(self).wf(),
            final(self).same_doc(old(self)),
            final(self).pointers == old(self).pointers,
            old(self).pos < old(self).s().len() ==> r == Ok::<char, Error>(
                old(self).s()[old(self).pos as int],
            ) && final(self).cur() == advance(old(self).cur()),
            old(self).pos >= old(self).s().len() ==> r == Err::<char, Error>(Error::UnexpectedEof)
                && *final(self) == *old(self),
    {
        self.check_unexpected_eof()?;
        let c = self.next();
        self.pos += 1;
        self.column += 1;
        Ok(c)
    }

    /// Backs up the parser one character.
    fn back_char(&mut self)
        requires
            old(self).wf(),
            1 <= old(self).pos,
            1 <= old(self).column,
            old(self).column - 1 <= 4 * (old(self).pos - 1),
            old(self).line <= old(self).pos - 1,
        ensures
            final(self).wf(),
            final(self).same_doc(old(self)),
            final(self).pointers == old(self).pointers,
            final(self).cur() == retreat(old(self).cur()),
    {
        self.pos -= 1;
        self.column -= 1;
    }

    fn get_location(&self) -> (r: Location)
        ensures
            r == loc_of(self.cur()),
    {
        Location { line: self.line, column: self.column, pos: self.pos }
    }

    fn unexpected_token(&self) -> (e: Error)
        requires
            self.pos < self.s().len(),
        ensures
            e == token_err(self.s()[self.pos as int], self.pos as nat),
    {
        Error::UnexpectedToken(self.next(), self.pos)
    }

    /// Back up one character and report it as unexpected, at its own
    /// position.
    fn was_unexpected_token(&mut self) -> (e: Error)
        requires
            old(self).wf(),
            1 <= old(self).pos,
            1 <= old(self).column,
            old(self).column - 1 <= 4 * (old(self).pos - 1),
            old(self).line <= old(self).pos - 1,
        ensures
            final(self).wf(),
            final(self).same_doc(old(self)),
            final(self).pointers == old(self).pointers,
            final(self).cur() == retreat(old(self).cur()),
            e == token_err(old(self).s()[old(self).pos - 1], (old(self).pos - 1) as nat),
    {
        self.back_char();
        self.unexpected_token()
    }

    /// Record the current location in role `prop` for pointer `ptr`.
    fn map(&mut self, ptr: &str, prop: Prop)
        requires
            old(self).wf(),
        ensures
            final(self).wf(),
            final(self).same_doc(old(self)),
            final(self).cur() == old(self).cur(),
            final(self).tbl() == tbl_set(old(self).tbl(), ptr@, prop, loc_of(old(self).cur())),
    {
        let loc = self.get_location();
        self.map_location(ptr, prop, loc);
    }

    /// Record `loc` in role `prop` for pointer `ptr`.
    fn map_location(&mut self, ptr: &str, prop: Prop, loc: Location)
        requires
            old(self).wf(),
        ensures
            final(self).wf(),
            final(self).same_doc(old(self)),
            final(self).cur() == old(self).cur(),
            final(self).tbl() == tbl_set(old(self).tbl(), ptr@, prop, loc),
    {
        self.pointers.set(ptr, prop, loc);
    }

    /// Consume an exact literal tail, character by character.
    fn expect(&mut self, t: &str) -> (r: Result<(), Error>)
        requires
            old(self).wf(),
        ensures
            final(self).wf(),
            final(self).same_doc(old(self)),
            final(self).pointers == old(self).pointers,
            old(self).pos <= final(self).pos,
            match s_expect(old(self).s(), old(self).cur(), t@) {
                TokStep::Parsed { cur: c2, .. } => r == Ok::<(), Error>(()) && final(self).cur()
                    == c2,
                TokStep::Failed { e } => r == Err::<(), Error>(e),
            },
    {
        let ghost s = self.s();
        let ghost cur0 = self.cur();
        let n = t.unicode_len();
        proof {
            assert(t@.skip(0) =~= t@);
        }
        let mut i: usize = 0;
        while i < n
            invariant
                i <= n,
                n as nat == t@.len(),
                self.wf(),
                self.s() == s,
                s == old(self).s(),
                cur0 == old(self).cur(),
                cur0.pos <= self.pos as nat,
                self.options == old(self).options,
                self.pointers == old(self).pointers,
                s_expect(s, cur0, t@) == s_expect(s, self.cur(), t@.skip(i as int)),
            decreases n - i,
        {
            let ghost rest = t@.skip(i as int);
            proof {
                assert(rest.len() > 0);
                assert(rest[0] == t@[i as int]);
            }
            let c = t.get_char(i);
            match self.get_char() {
                Err(e) => {
                    return Err(e);
                },
                Ok(c2) => {
                    if c2 != c {
                        let e = self.was_unexpected_token();
                        return Err(e);
                    }
                },
            }
            i += 1;
            proof {
                assert(rest.skip(1) =~= t@.skip(i as int));
            }
        }
        proof {
            assert(t@.skip(n as int) =~= Seq::<char>::empty());
        }
        Ok(())
    }

    /// Consume the longest run of decimal digits, returning it verbatim.
    fn get_digits(&mut self) -> (r: String)
        requires
            old(self).wf(),
        ensures
            final(self).wf(),
            final(self).same_doc(old(self)),
            final(self).pointers == old(self).pointers,
            final(self).cur() == s_digits(old(self).s(), old(self).cur()),
            old(self).pos <= final(self).pos,
            r@ == old(self).s().subrange(old(self).pos as int, final(self).pos as int),
    {
        let ghost s = self.s();
        let ghost cur0 = self.cur();
        let mut digits = String::new();
        proof {
            assert(digits@ =~= s.subrange(cur0.pos as int, cur0.pos as int));
        }
        while self.pos < self.source.len() && Self::is_digit(self.source[self.pos])
            invariant
                self.wf(),
                self.s() == s,
                s == old(self).s(),
                cur0 == old(self).cur(),
                self.options == old(self).options,
                self.pointers == old(self).pointers,
                cur0.pos <= self.pos as nat,
                s_digits(s, self.cur()) == s_digits(s, cur0),
                digits@ == s.subrange(cur0.pos as int, self.pos as int),
            decreases self.s().len() - self.pos,
        {
            let c = self.source[self.pos];
            let _ = self.get_char();
            digits.push(c);
            proof {
                assert(digits@ =~= s.subrange(cur0.pos as int, self.pos as int));
            }
        }
        digits
    }

    fn hex_value(c: char) -> (v: u32)
        requires
            is_hex_char(c),
        ensures
            v == hex_val(c),
    {
        let u = c as u32;
        if 48 <= u && u <= 57 {
            u - 48
        } else if 97 <= u {
            u - 87
        } else {
            u - 55
        }
    }

    /// Consume one character that must be a hexadecimal digit.
    fn hex_digit(&mut self) -> (r: Result<u32, Error>)
        requires
            old(self).wf(),
        ensures
            final(self).wf(),
            final(self).same_doc(old(self)),
            final(self).pointers == old(self).pointers,
            old(self).pos <= final(self).pos,
            match hex_step(old(self).s(), old(self).cur()) {
                TokStep::Parsed { v, cur: c2 } => r == Ok::<u32, Error>(v) && final(self).cur()
                    == c2,
                TokStep::Failed { e } => r == Err::<u32, Error>(e),
            },
    {
        let c = self.get_char()?;
        if !Self::is_hex(c) {
            return Err(Error::UnexpectedToken(c, self.pos - 1));
        }
        Ok(Self::hex_value(c))
    }

    /// Consume a `\uXXXX` escape's 4 hex digits and convert them to the
    /// character they name; a code point that is not a valid Unicode scalar
    /// value is rejected.
    fn get_char_code(&mut self) -> (r: Result<char, Error>)
        requires
            old(self).wf(),
        ensures
            final(self).wf(),
            final(self).same_doc(old(self)),
            final(self).pointers == old(self).pointers,
            old(self).pos <= final(self).pos,
            match s_char_code(old(self).s(), old(self).cur()) {
                TokStep::Parsed { v, cur: c2 } => r == Ok::<char, Error>(v) && final(self).cur()
                    == c2,
                TokStep::Failed { e } => r == Err::<char, Error>(e),
            },
    {
        let d1 = self.hex_digit()?;
        let d2 = self.hex_digit()?;
        let d3 = self.hex_digit()?;
        let d4 = self.hex_digit()?;
        let code: u32 = d1 * 4096 + d2 * 256 + d3 * 16 + d4;
        match char::from_u32(code) {
            Some(ch) => {
                proof {
                    vstd::utf8::char_u32_cast(ch, code);
                }
                Ok(ch)
            },
            None => Err(Error::InvalidUnicodeCodePoint(code, self.pos)),
        }
    }

    fn is_simple_esc(c: char) -> (r: bool)
        ensures
            r == is_simple_escape(c),
    {
        c == 'b' || c == 'f' || c == 'n' || c == 'r' || c == 't' || c == '"' || c == '/' || c
            == '\\'
    }

    fn escape_of(c: char) -> (r: char)
        ensures
            r == escape_char(c),
    {
        if c == 'b' {
            '\u{0008}'
        } else if c == 'f' {
            '\u{000C}'
        } else if c == 'n' {
            '\n'
        } else if c == 'r' {
            '\r'
        } else if c == 't' {
            '\t'
        } else {
            c
        }
    }

    /// Parse a string token, the opening quote already consumed. Escapes
    /// are resolved; an unescaped quote ends the string.
    fn parse_string(&mut self) -> (r: Result<String, Error>)
        requires
            old(self).wf(),
        ensures
            final(self).wf(),
            final(self).same_doc(old(self)),
            final(self).pointers == old(self).pointers,
            old(self).pos <= final(self).pos,
            match s_string(old(self).s(), old(self).cur()) {
                TokStep::Parsed { v, cur: c2 } => r matches Ok(out) && out@ == v
                    && final(self).cur() == c2,
                TokStep::Failed { e } => r == Err::<String, Error>(e),
            },
    {
        let ghost s = self.s();
        let ghost cur0 = self.cur();
        let mut out = String::new();
        loop
            invariant_except_break
                (match s_string(s, self.cur()) {
                    TokStep::Parsed { v, cur: c2 } => s_string(s, cur0) == (TokStep::Parsed {
                        v: out@ + v,
                        cur: c2,
                    }),
                    TokStep::Failed { e } => s_string(s, cur0) == (TokStep::Failed::<
                        Seq<char>,
                    > { e }),
                }),
            invariant
                self.wf(),
                self.s() == s,
                s == old(self).s(),
                cur0 == old(self).cur(),
                cur0.pos <= self.pos as nat,
                self.options == old(self).options,
                self.pointers == old(self).pointers,
            ensures
                self.wf(),
                self.s() == s,
                self.options == old(self).options,
                self.pointers == old(self).pointers,
                s_string(s, cur0) == (TokStep::Parsed { v: out@, cur: self.cur() }),
            decreases self.s().len() - self.pos,
        {
            let ghost outi = out@;
            let c = self.get_char()?;
            if c == '"' {
                proof {
                    assert(outi + Seq::<char>::empty() =~= outi);
                }
                break;
            }
            if c == '\\' {
                let e2 = self.get_char()?;
                if Self::is_simple_esc(e2) {
                    out.push(Self::escape_of(e2));
                    proof {
                        match s_string(s, self.cur()) {
                            TokStep::Parsed { v, cur: c2 } => {
                                assert(outi + (seq![escape_char(e2)] + v) =~= out@ + v);
                            },
                            TokStep::Failed { .. } => {},
                        }
                    }
                } else if e2 == 'u' {
                    let ch = self.get_char_code()?;
                    out.push(ch);
                    proof {
                        match s_string(s, self.cur()) {
                            TokStep::Parsed { v, cur: c2 } => {
                                assert(outi + (seq![ch] + v) =~= out@ + v);
                            },
                            TokStep::Failed { .. } => {},
                        }
                    }
                } else {
                    let err = self.was_unexpected_token();
                    return Err(err);
                }
            } else {
                out.push(c);
                proof {
                    match s_string(s, self.cur()) {
                        TokStep::Parsed { v, cur: c2 } => {
                            assert(outi + (seq![c] + v) =~= out@ + v);
                        },
                        TokStep::Failed { .. } => {},
                    }
                }
            }
        }
        Ok(out)
    }

    /// Parse a number token, capturing its exact literal text. The
    /// dispatched first character has already been consumed, so the parser
    /// first backs up one character; the grammar itself cannot fail (digit
    /// runs may be empty, a documented leniency), so no error is possible.
    #[verifier::rlimit(50)]
    fn parse_number(&mut self) -> (r: String)
        requires
            old(self).wf(),
            1 <= old(self).pos,
            1 <= old(self).column,
            old(self).column - 1 <= 4 * (old(self).pos - 1),
            old(self).line <= old(self).pos - 1,
        ensures
            final(self).wf(),
            final(self).same_doc(old(self)),
            final(self).pointers == old(self).pointers,
            final(self).cur() == s_number_end(old(self).s(), retreat(old(self).cur())),
            old(self).pos - 1 <= final(self).pos,
            r@ == old(self).s().subrange(old(self).pos - 1, final(self).pos as int),
    {
        let ghost s = self.s();
        self.back_char();
        let ghost curn = self.cur();
        let mut num = String::new();
        if self.next() == '-' {
            match self.get_char() {
                Ok(c) => num.push(c),
                Err(_) => {
                    proof {
                        assert(false);
                    }
                },
            }
        }
        proof {
            assert(num@ =~= s.subrange(curn.pos as int, self.pos as int));
        }
        if self.pos < self.source.len() && self.next() == '0' {
            match self.get_char() {
                Ok(c) => num.push(c),
                Err(_) => {
                    proof {
                        assert(false);
                    }
                },
            }
        } else {
            let d = self.get_digits();
            num.append(d.as_str());
        }
        proof {
            assert(num@ =~= s.subrange(curn.pos as int, self.pos as int));
        }
        if self.pos < self.source.len() && self.next() == '.' {
            match self.get_char() {
                Ok(c) => num.push(c),
                Err(_) => {
                    proof {
                        assert(false);
                    }
                },
            }
            let d = self.get_digits();
            num.append(d.as_str());
        }
        proof {
            assert(num@ =~= s.subrange(curn.pos as int, self.pos as int));
        }
        if self.pos < self.source.len() {
            let c = self.next();
            if c == 'e' || c == 'E' {
                match self.get_char() {
                    Ok(c2) => num.push(c2),
                    Err(_) => {
                        proof {
                            assert(false);
                        }
                    },
                }
                if self.pos < self.source.len() {
                    let c3 = self.next();
                    if c3 == '-' || c3 == '+' {
                        match self.get_char() {
                            Ok(c4) => num.push(c4),
                            Err(_) => {
                                proof {
                                    assert(false);
                                }
                            },
                        }
                    }
                }
                let d = self.get_digits();
                num.append(d.as_str());
            }
        }
        proof {
            assert(num@ =~= s.subrange(curn.pos as int, self.pos as int));
        }
        num
    }

    /// Escape an object key for use as a JSON pointer segment: `~` becomes
    /// `~0`, then `/` becomes `~1` (in that order, so a literal `/` is
    /// never double-escaped).
    fn escape_json_pointer(s: &str) -> (r: String)
        ensures
            r@ == escape_seg(s@),
    {
        let n = s.unicode_len();
        let mut out = String::new();
        proof {
            assert(s@.subrange(0, 0) =~= Seq::<char>::empty());
        }
        let mut i: usize = 0;
        while i < n
            invariant
                i <= n,
                n as nat == s@.len(),
                out@ == escape_seg(s@.subrange(0, i as int)),
            decreases n - i,
        {
            let c = s.get_char(i);
            if c == '~' {
                out.push('~');
                out.push('0');
            } else if c == '/' {
                out.push('~');
                out.push('1');
            } else {
                out.push(c);
            }
            i += 1;
            proof {
                assert(s@.subrange(0, i as int).drop_last() =~= s@.subrange(0, i - 1));
                assert(s@.subrange(0, i as int).last() == s@[i - 1]);
                assert(out@ =~= escape_seg(s@.subrange(0, i - 1)) + esc_char(s@[i - 1]));
            }
        }
        proof {
            assert(s@.subrange(0, n as int) =~= s@);
        }
        out
    }

    /// The child pointer for array index `idx` under `ptr`.
    fn ptr_with_index(ptr: &str, idx: usize) -> (r: String)
        ensures
            r@ == ptr@ + seq!['/'] + dec_digits(idx as nat),
    {
        let mut s = String::from_str(ptr);
        s.push('/');
        let d = fmt_usize(idx);
        s.append(d.as_str());
        proof {
            assert(s@ =~= ptr@ + seq!['/'] + dec_digits(idx as nat));
        }
        s
    }

    /// The child pointer for object key `key` under `ptr`.
    fn ptr_with_key(ptr: &str, key: &str) -> (r: String)
        ensures
            r@ == ptr@ + seq!['/'] + escape_seg(key@),
    {
        let mut s = String::from_str(ptr);
        s.push('/');
        let e = Self::escape_json_pointer(key);
        s.append(e.as_str());
        proof {
            assert(s@ =~= ptr@ + seq!['/'] + escape_seg(key@));
        }
        s
    }

    /// Insert a member into an object under construction: an existing key
    /// keeps its place and its value is overwritten (last write wins), a
    /// new key is appended.
    fn obj_set(members: &mut Vec<(String, JsonValue)>, key: String, value: JsonValue)
        ensures
            members_view(final(members)@) == obj_insert(
                members_view(old(members)@),
                key@,
                value.deep_view(),
            ),
    {
        let ghost pre = members_view(old(members)@);
        let ghost kv = key@;
        let ghost dv = value.deep_view();
        let n = members.len();
        let mut i: usize = 0;
        while i < n
            invariant
                i <= n,
                n == members@.len(),
                *members == *old(members),
                pre == members_view(old(members)@),
                kv == key@,
                dv == value.deep_view(),
                forall|j: int| 0 <= j < i ==> members@[j].0@ != key@,
            decreases n - i,
        {
            if str_eq(members[i].0.as_str(), key.as_str()) {
                let ghost gi = i as int;
                members[i] = (key, value);
                proof {
                    assert(members_view(members@) =~= pre.update(gi, (kv, dv)));
                    assert(forall|j: int| 0 <= j < gi ==> pre[j].0 != kv);
                    lemma_obj_insert_found(pre, gi, kv, dv);
                }
                return;
            }
            i += 1;
        }
        members.push((key, value));
        proof {
            assert(members_view(members@) =~= pre.push((kv, dv)));
            assert(forall|j: int| 0 <= j < pre.len() ==> pre[j].0 != kv);
            lemma_obj_insert_absent(pre, kv, dv);
        }
    }

    /// Parse one JSON value at pointer `ptr`: record `Value` at its first
    /// token, dispatch on that token, record `ValueEnd` after it, and — at
    /// top level only — require end of input after trailing whitespace.
    #[verifier::rlimit(100)]
    fn parse(&mut self, ptr: &str, top_level: bool) -> (r: Result<JsonValue, Error>)
        requires
            old(self).wf(),
        ensures
            final(self).wf(),
            final(self).same_doc(old(self)),
            match s_value(old(self).s(), ptr@, old(self).cur(), old(self).tbl(), top_level) {
                ValStep::Parsed { v, cur: c2, tbl: t2 } => r matches Ok(out) && out.deep_view()
                    == v && final(self).cur() == c2 && final(self).tbl() == t2
                    && final(self).pos > old(self).pos,
                ValStep::Failed { e } => r == Err::<JsonValue, Error>(e),
            },
        decreases old(self).s().len() - old(self).pos, 0int,
    {
        let ghost s = self.s();
        let ghost cur_in = self.cur();
        let ghost tbl_in = self.tbl();
        self.whitespace();
        proof {
            lemma_skip_ws_mono(s, cur_in);
        }
        self.map(ptr, Prop::Value);
        let ghost cur0 = self.cur();
        let c = match self.get_char() {
            Ok(c) => c,
            Err(e) => {
                return Err(e);
            },
        };
        let data: JsonValue = if c == 't' {
            proof {
                reveal_strlit("rue");
                assert("rue"@ =~= seq!['r', 'u', 'e']);
            }
            self.expect("rue")?;
            JsonValue::Bool(true)
        } else if c == 'f' {
            proof {
                reveal_strlit("alse");
                assert("alse"@ =~= seq!['a', 'l', 's', 'e']);
            }
            self.expect("alse")?;
            JsonValue::Bool(false)
        } else if c == 'n' {
            proof {
                reveal_strlit("ull");
                assert("ull"@ =~= seq!['u', 'l', 'l']);
            }
            self.expect("ull")?;
            JsonValue::Null
        } else if c == '"' {
            JsonValue::Str(self.parse_string()?)
        } else if c == '[' {
            let items = self.parse_array(ptr)?;
            proof {
                lemma_array_deep_view(items);
            }
            JsonValue::Array(items)
        } else if c == '{' {
            self.parse_object(ptr)?
        } else if c == '-' || Self::is_digit(c) {
            proof {
                lemma_s_number_end_strict(s, cur0);
            }
            JsonValue::Number(self.parse_number())
        } else {
            return Err(Error::UnexpectedToken(c, self.pos));
        };
        self.map(ptr, Prop::ValueEnd);
        self.whitespace();
        if top_level && self.pos < self.len() {
            let e = self.unexpected_token();
            return Err(e);
        }
        Ok(data)
    }

    /// Parse an array body at pointer `ptr`, the opening bracket already
    /// consumed; element `i` is parsed at pointer `ptr/i`.
    #[verifier::rlimit(100)]
    fn parse_array(&mut self, ptr: &str) -> (r: Result<Vec<JsonValue>, Error>)
        requires
            old(self).wf(),
        ensures
            final(self).wf(),
            final(self).same_doc(old(self)),
            match s_array(old(self).s(), ptr@, old(self).cur(), old(self).tbl()) {
                ValStep::Parsed { v, cur: c2, tbl: t2 } => r matches Ok(items) && items_view(
                    items@,
                ) == v && final(self).cur() == c2 && final(self).tbl() == t2 && final(self).pos
                    >= old(self).pos,
                ValStep::Failed { e } => r == Err::<Vec<JsonValue>, Error>(e),
            },
        decreases old(self).s().len() - old(self).pos, 1int,
    {
        let ghost s = self.s();
        let ghost cur_in = self.cur();
        let ghost tbl_in = self.tbl();
        self.whitespace();
        proof {
            lemma_skip_ws_mono(s, cur_in);
        }
        let mut array: Vec<JsonValue> = Vec::new();
        let c = self.get_char()?;
        if c == ']' {
            proof {
                assert(items_view(array@) =~= Seq::<SpecValue>::empty());
            }
            return Ok(array);
        }
        self.back_char();
        proof {
            assert(self.cur() == skip_ws(s, cur_in));
            assert(items_view(array@) =~= Seq::<SpecValue>::empty());
        }
        loop
            invariant
                self.wf(),
                self.s() == s,
                s == old(self).s(),
                cur_in == old(self).cur(),
                tbl_in == old(self).tbl(),
                self.options == old(self).options,
                self.pos >= old(self).pos,
                s_array(s, ptr@, cur_in, tbl_in) == s_array_items(
                    s,
                    ptr@,
                    self.cur(),
                    self.tbl(),
                    items_view(array@),
                ),
            decreases self.s().len() - self.pos,
        {
            let ghost curi = self.cur();
            let ghost acci = items_view(array@);
            let item_ptr = Self::ptr_with_index(ptr, array.len());
            let v = match self.parse(item_ptr.as_str(), false) {
                Ok(v) => v,
                Err(e) => {
                    return Err(e);
                },
            };
            let ghost dv = v.deep_view();
            array.push(v);
            proof {
                assert(items_view(array@) =~= acci.push(dv));
            }
            self.whitespace();
            let c2 = self.get_char()?;
            if c2 == ']' {
                return Ok(array);
            }
            if c2 != ',' {
                let e = self.was_unexpected_token();
                return Err(e);
            }
            self.whitespace();
            proof {
                assert(self.cur().pos > curi.pos);
            }
        }
    }

    /// Parse an object body at pointer `ptr`, the opening brace already
    /// consumed; the member for key `k` is parsed at pointer
    /// `ptr/escape(k)`, with `Key`/`KeyEnd` recorded around the quoted key.
    #[verifier::rlimit(100)]
    fn parse_object(&mut self, ptr: &str) -> (r: Result<JsonValue, Error>)
        requires
            old(self).wf(),
        ensures
            final(self).wf(),
            final(self).same_doc(old(self)),
            match s_object(old(self).s(), ptr@, old(self).cur(), old(self).tbl()) {
                ValStep::Parsed { v, cur: c2, tbl: t2 } => r matches Ok(out) && out.deep_view()
                    == SpecValue::Object(v) && final(self).cur() == c2 && final(self).tbl() == t2
                    && final(self).pos >= old(self).pos,
                ValStep::Failed { e } => r == Err::<JsonValue, Error>(e),
            },
        decreases old(self).s().len() - old(self).pos, 1int,
    {
        let ghost s = self.s();
        let ghost cur_in = self.cur();
        let ghost tbl_in = self.tbl();
        self.whitespace();
        proof {
            lemma_skip_ws_mono(s, cur_in);
        }
        let mut object: Vec<(String, JsonValue)> = Vec::new();
        let c = self.get_char()?;
        if c == '}' {
            proof {
                lemma_object_deep_view(object);
                assert(members_view(object@) =~= Seq::<(Seq<char>, SpecValue)>::empty());
            }
            return Ok(JsonValue::Object(object));
        }
        self.back_char();
        proof {
            assert(self.cur() == skip_ws(s, cur_in));
            assert(members_view(object@) =~= Seq::<(Seq<char>, SpecValue)>::empty());
        }
        loop
            invariant
                self.wf(),
                self.s() == s,
                s == old(self).s(),
                cur_in == old(self).cur(),
                tbl_in == old(self).tbl(),
                self.options == old(self).options,
                self.pos >= old(self).pos,
                s_object(s, ptr@, cur_in, tbl_in) == s_object_items(
                    s,
                    ptr@,
                    self.cur(),
                    self.tbl(),
                    members_view(object@),
                ),
            decreases self.s().len() - self.pos,
        {
            let ghost curi = self.cur();
            let loc = self.get_location();
            let cq = self.get_char()?;
            if cq != '"' {
                let e = self.was_unexpected_token();
                return Err(e);
            }
            let key = self.parse_string()?;
            let prop_ptr = Self::ptr_with_key(ptr, key.as_str());
            self.map_location(prop_ptr.as_str(), Prop::Key, loc);
            self.map(prop_ptr.as_str(), Prop::KeyEnd);
            self.whitespace();
            let cc = self.get_char()?;
            if cc != ':' {
                let e = self.was_unexpected_token();
                return Err(e);
            }
            self.whitespace();
            let value = match self.parse(prop_ptr.as_str(), false) {
                Ok(v) => v,
                Err(e) => {
                    return Err(e);
                },
            };
            Self::obj_set(&mut object, key, value);
            self.whitespace();
            let c2 = self.get_char()?;
            if c2 == '}' {
                proof {
                    lemma_object_deep_view(object);
                }
                return Ok(JsonValue::Object(object));
            }
            if c2 != ',' {
                let e = self.was_unexpected_token();
                return Err(e);
            }
            self.whitespace();
            proof {
                assert(self.cur().pos > curi.pos);
            }
        }
    }
}

/// The result of a parse: the value tree and the pointer table. Both are
/// freshly constructed per parse call.
#[derive(Debug)]
pub struct ParseResult {
    /// The parsed document.
    pub value: JsonValue,
    /// The source locations of every node, by JSON pointer.
    pub pointers: PointerTable,
}

impl ParseResult {
    /// Get the location of the json pointer.
    pub fn get_location(&self, ptr: &str) -> (r: Option<&LocationMap>)
        requires
            self.pointers.wf(),
        ensures
            match r {
                Some(lm) => self.pointers@.contains_key(ptr@) && *lm == self.pointers@[ptr@],
                None => !self.pointers@.contains_key(ptr@),
            },
    {
        self.pointers.get(ptr)
    }
}

/// Parse `source` as a single JSON document, optionally surrounded by
/// whitespace, and return the value tree together with the pointer table
/// described by [`s_value`] starting from the root pointer and an empty
/// table. The length bound keeps column arithmetic within `usize`.
pub fn parse(source: &str, options: Options) -> (r: Result<ParseResult, Error>)
    requires
        4 * source@.len() + 4 <= usize::MAX,
    ensures
        match s_value(source@, Seq::empty(), start_cursor(), Map::empty(), true) {
            ValStep::Parsed { v, cur, tbl } => r matches Ok(pr) && pr.value.deep_view() == v
                && pr.pointers@ == tbl && pr.pointers.wf(),
            ValStep::Failed { e } => r == Err::<ParseResult, Error>(e),
        },
{
    let mut parser = Parser::new(source, options);
    proof {
        reveal_strlit("");
        assert(""@ =~= Seq::<char>::empty());
    }
    let value = match parser.parse("", true) {
        Ok(v) => v,
        Err(e) => {
            return Err(e);
        },
    };
    Ok(ParseResult { value, pointers: parser.pointers })
}

} // verus!

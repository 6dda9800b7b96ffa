//! Laws of the tracking parser, proved over the model in [`crate::model`]:
//! column accounting, the span recorded for a primitive token, and the
//! shape of the pointer table.

use vstd::prelude::*;

use crate::model::{
    advance, is_digit_char, lemma_s_string_mono, lemma_skip_ws_bound, lemma_skip_ws_mono,
    s_array, s_array_items, s_digits, s_expect, s_number_end, s_object, s_object_items, s_string,
    s_value, skip_ws, start_cursor, tbl_set, ws_advance, Cursor, SpecTable, TokStep, ValStep,
};
use crate::types::{Location, LocationMap, Prop, SpecValue};

verus! {

/// Column accounting while skipping whitespace: a space advances the column
/// by exactly 1, a tab by exactly 4, a line feed resets the column to 0 and
/// increments the line, and a carriage return resets the column to 0
/// without touching the line. Each consumes one character.
pub proof fn lemma_column_accounting(cur: Cursor)
    ensures
        ws_advance(' ', cur) == (Cursor {
            pos: cur.pos + 1,
            line: cur.line,
            column: cur.column + 1,
        }),
        ws_advance('\t', cur) == (Cursor {
            pos: cur.pos + 1,
            line: cur.line,
            column: cur.column + 4,
        }),
        ws_advance('\n', cur) == (Cursor { pos: cur.pos + 1, line: cur.line + 1, column: 0 }),
        ws_advance('\r', cur) == (Cursor { pos: cur.pos + 1, line: cur.line, column: 0 }),
{
}

/// A successful literal-tail match consumes exactly the expected text.
proof fn lemma_s_expect_consumes(s: Seq<char>, cur: Cursor, t: Seq<char>)
    requires
        cur.pos <= s.len(),
    ensures
        s_expect(s, cur, t) matches TokStep::Parsed { cur: c2, .. } ==> c2.pos == cur.pos
            + t.len() && c2.pos <= s.len() && s.subrange(cur.pos as int, c2.pos as int) == t,
    decreases t.len(),
{
    if t.len() == 0 {
        assert(s.subrange(cur.pos as int, cur.pos as int) =~= t);
    }
    if t.len() > 0 && cur.pos < s.len() && s[cur.pos as int] == t[0] {
        lemma_s_expect_consumes(s, advance(cur), t.skip(1));
        match s_expect(s, advance(cur), t.skip(1)) {
            TokStep::Parsed { cur: c2, .. } => {
                assert(s.subrange(cur.pos as int, c2.pos as int) =~= seq![t[0]] + s.subrange(
                    cur.pos as int + 1,
                    c2.pos as int,
                ));
                assert(seq![t[0]] + t.skip(1) =~= t);
            },
            TokStep::Failed { .. } => {},
        }
    }
}

/// A successful string token ends right after its closing quote, within
/// the input.
proof fn lemma_s_string_closing(s: Seq<char>, cur: Cursor)
    ensures
        s_string(s, cur) matches TokStep::Parsed { cur: c2, .. } ==> cur.pos < c2.pos <= s.len()
            && s[c2.pos - 1] == '"',
    decreases s.len() - cur.pos,
{
    if cur.pos < s.len() {
        let c = s[cur.pos as int];
        let cur1 = advance(cur);
        if c == '"' {
        } else if c == '\\' {
            if cur1.pos < s.len() {
                let esc = s[cur1.pos as int];
                let cur2 = advance(cur1);
                if crate::model::is_simple_escape(esc) {
                    lemma_s_string_closing(s, cur2);
                } else if esc == 'u' {
                    match crate::model::s_char_code(s, cur2) {
                        TokStep::Parsed { cur: c3, .. } => lemma_s_string_closing(s, c3),
                        TokStep::Failed { .. } => (),
                    }
                }
            }
        } else {
            lemma_s_string_closing(s, cur1);
        }
    }
}

/// A digit run stays within the input.
proof fn lemma_s_digits_bound(s: Seq<char>, cur: Cursor)
    requires
        cur.pos <= s.len(),
    ensures
        s_digits(s, cur).pos <= s.len(),
    decreases s.len() - cur.pos,
{
    if cur.pos < s.len() && is_digit_char(s[cur.pos as int]) {
        lemma_s_digits_bound(s, advance(cur));
    }
}

/// A number token stays within the input.
proof fn lemma_s_number_end_bound(s: Seq<char>, cur: Cursor)
    requires
        cur.pos < s.len(),
    ensures
        s_number_end(s, cur).pos <= s.len(),
{
    let c1 = if cur.pos < s.len() && s[cur.pos as int] == '-' {
        advance(cur)
    } else {
        cur
    };
    lemma_s_digits_bound(s, c1);
    let c2 = if c1.pos < s.len() && s[c1.pos as int] == '0' {
        advance(c1)
    } else {
        s_digits(s, c1)
    };
    if c2.pos < s.len() && s[c2.pos as int] == '.' {
        lemma_s_digits_bound(s, advance(c2));
    }
    let c3 = if c2.pos < s.len() && s[c2.pos as int] == '.' {
        s_digits(s, advance(c2))
    } else {
        c2
    };
    if c3.pos < s.len() && (s[c3.pos as int] == 'e' || s[c3.pos as int] == 'E') {
        let c4 = advance(c3);
        let c5 = if c4.pos < s.len() && (s[c4.pos as int] == '+' || s[c4.pos as int] == '-') {
            advance(c4)
        } else {
            c4
        };
        lemma_s_digits_bound(s, c5);
    }
}

/// For a primitive value, the recorded `Value`/`ValueEnd` positions cover
/// exactly the token's literal substring: the keyword for `null`, `true`
/// and `false`; the captured literal text for a number; and a span opening
/// and closing with a quote for a string.
#[verifier::rlimit(100)]
pub proof fn lemma_primitive_span(
    s: Seq<char>,
    ptr: Seq<char>,
    cur: Cursor,
    tbl: SpecTable,
    top: bool,
)
    requires
        cur.pos <= s.len(),
        s.len() <= usize::MAX,
    ensures
        (match s_value(s, ptr, cur, tbl, top) {
            ValStep::Parsed { v, cur: cend, tbl: t2 } => (v matches SpecValue::Null || v
                matches SpecValue::Bool(_) || v matches SpecValue::Number(_) || v
                matches SpecValue::Str(_)) ==> {
                &&& t2.contains_key(ptr)
                &&& t2[ptr].value_loc is Some
                &&& t2[ptr].value_end_loc is Some
                &&& {
                    let a = t2[ptr].value_loc->0.pos as int;
                    let b = t2[ptr].value_end_loc->0.pos as int;
                    &&& 0 <= a < b <= s.len()
                    &&& (v matches SpecValue::Null ==> s.subrange(a, b) == seq!['n', 'u', 'l', 'l'])
                    &&& (v == SpecValue::Bool(true) ==> s.subrange(a, b) == seq![
                        't',
                        'r',
                        'u',
                        'e',
                    ])
                    &&& (v == SpecValue::Bool(false) ==> s.subrange(a, b) == seq![
                        'f',
                        'a',
                        'l',
                        's',
                        'e',
                    ])
                    &&& (v matches SpecValue::Number(lit) ==> s.subrange(a, b) == lit)
                    &&& (v matches SpecValue::Str(_) ==> s[a] == '"' && s[b - 1] == '"')
                }
            },
            ValStep::Failed { .. } => true,
        }),
{
    let cur0 = skip_ws(s, cur);
    crate::model::lemma_skip_ws_mono(s, cur);
    crate::model::lemma_skip_ws_bound(s, cur);
    if cur0.pos < s.len() {
        let c = s[cur0.pos as int];
        let cur1 = advance(cur0);
        if c == 't' {
            lemma_s_expect_consumes(s, cur1, seq!['r', 'u', 'e']);
            match s_expect(s, cur1, seq!['r', 'u', 'e']) {
                TokStep::Parsed { cur: c2, .. } => {
                    assert(s.subrange(cur0.pos as int, c2.pos as int) =~= seq![c] + s.subrange(
                        cur1.pos as int,
                        c2.pos as int,
                    ));
                },
                TokStep::Failed { .. } => {},
            }
        } else if c == 'f' {
            lemma_s_expect_consumes(s, cur1, seq!['a', 'l', 's', 'e']);
            match s_expect(s, cur1, seq!['a', 'l', 's', 'e']) {
                TokStep::Parsed { cur: c2, .. } => {
                    assert(s.subrange(cur0.pos as int, c2.pos as int) =~= seq![c] + s.subrange(
                        cur1.pos as int,
                        c2.pos as int,
                    ));
                },
                TokStep::Failed { .. } => {},
            }
        } else if c == 'n' {
            lemma_s_expect_consumes(s, cur1, seq!['u', 'l', 'l']);
            match s_expect(s, cur1, seq!['u', 'l', 'l']) {
                TokStep::Parsed { cur: c2, .. } => {
                    assert(s.subrange(cur0.pos as int, c2.pos as int) =~= seq![c] + s.subrange(
                        cur1.pos as int,
                        c2.pos as int,
                    ));
                },
                TokStep::Failed { .. } => {},
            }
        } else if c == '"' {
            lemma_s_string_closing(s, cur1);
        } else if c == '-' || is_digit_char(c) {
            crate::model::lemma_s_number_end_strict(s, cur0);
            lemma_s_number_end_bound(s, cur0);
        }
    }
}

/// `Key` and `KeyEnd` are recorded together or not at all.
pub open spec fn entry_keyed(lm: LocationMap) -> bool {
    lm.key_loc is Some <==> lm.key_end_loc is Some
}

/// A completed entry: `Value` and `ValueEnd` present, `Key`/`KeyEnd` paired.
pub open spec fn entry_full(lm: LocationMap) -> bool {
    lm.value_loc is Some && lm.value_end_loc is Some && entry_keyed(lm)
}

/// Every entry of the table has its `Key`/`KeyEnd` paired.
pub open spec fn tbl_keyed(tbl: SpecTable) -> bool {
    forall|k: Seq<char>| #[trigger] tbl.contains_key(k) ==> entry_keyed(tbl[k])
}

/// Every entry at a pointer longer than `n` characters is completed.
pub open spec fn tbl_deep_full(tbl: SpecTable, n: int) -> bool {
    forall|k: Seq<char>| #[trigger] tbl.contains_key(k) && k.len() > n ==> entry_full(tbl[k])
}

/// `k` maps to the same entry (or to none) in both tables.
pub open spec fn preserved_at(tbl: SpecTable, t2: SpecTable, k: Seq<char>) -> bool {
    (t2.contains_key(k) <==> tbl.contains_key(k)) && (tbl.contains_key(k) ==> t2[k] == tbl[k])
}

/// Entries at pointers of at most `n` characters are untouched.
pub open spec fn tbl_preserved_upto(tbl: SpecTable, t2: SpecTable, n: int) -> bool {
    forall|k: Seq<char>| k.len() <= n ==> #[trigger] preserved_at(tbl, t2, k)
}

/// The shape a value parse gives the table: pointers strictly inside `ptr`
/// are completed, `ptr` itself is completed with its `Key`/`KeyEnd` fields
/// exactly as they were before (a value parse never records keys for its
/// own pointer), and entries at other pointers no longer than `ptr` are
/// untouched.
pub proof fn lemma_shape_value(s: Seq<char>, ptr: Seq<char>, cur: Cursor, tbl: SpecTable, top: bool)
    requires
        tbl_keyed(tbl),
        tbl_deep_full(tbl, ptr.len() as int),
    ensures
        (match s_value(s, ptr, cur, tbl, top) {
            ValStep::Parsed { v, cur: c2, tbl: t2 } => {
                &&& tbl_keyed(t2)
                &&& tbl_deep_full(t2, ptr.len() as int)
                &&& t2.contains_key(ptr)
                &&& entry_full(t2[ptr])
                &&& t2[ptr].key_loc == (if tbl.contains_key(ptr) {
                    tbl[ptr].key_loc
                } else {
                    None::<Location>
                })
                &&& t2[ptr].key_end_loc == (if tbl.contains_key(ptr) {
                    tbl[ptr].key_end_loc
                } else {
                    None::<Location>
                })
                &&& forall|k: Seq<char>|
                    k.len() <= ptr.len() && k != ptr ==> #[trigger] preserved_at(tbl, t2, k)
            },
            ValStep::Failed { .. } => true,
        }),
    decreases s.len() - cur.pos, 2int,
{
    let cur0 = skip_ws(s, cur);
    let tbl0 = tbl_set(tbl, ptr, Prop::Value, crate::model::loc_of(cur0));
    if cur0.pos < s.len() {
        lemma_skip_ws_mono(s, cur);
        let c = s[cur0.pos as int];
        let cur1 = advance(cur0);
        let pl = ptr.len() as int;
        if c == '[' {
            lemma_shape_array(s, ptr, cur1, tbl0);
            match s_array(s, ptr, cur1, tbl0) {
                ValStep::Parsed { cur: ca, tbl: t2p, .. } => {
                    assert(preserved_at(tbl0, t2p, ptr));
                    let t4 = tbl_set(t2p, ptr, Prop::ValueEnd, crate::model::loc_of(ca));
                    assert forall|k: Seq<char>| #[trigger] t4.contains_key(k) implies entry_keyed(
                        t4[k],
                    ) by {
                        if k != ptr {
                            assert(t2p.contains_key(k));
                        }
                    }
                    assert forall|k: Seq<char>|
                        k.len() <= pl && k != ptr implies preserved_at(tbl, t4, k) by {
                        assert(preserved_at(tbl0, t2p, k));
                    }
                },
                ValStep::Failed { .. } => {},
            }
        } else if c == '{' {
            lemma_shape_object(s, ptr, cur1, tbl0);
            match s_object(s, ptr, cur1, tbl0) {
                ValStep::Parsed { cur: ca, tbl: t2p, .. } => {
                    assert(preserved_at(tbl0, t2p, ptr));
                    let t4 = tbl_set(t2p, ptr, Prop::ValueEnd, crate::model::loc_of(ca));
                    assert forall|k: Seq<char>| #[trigger] t4.contains_key(k) implies entry_keyed(
                        t4[k],
                    ) by {
                        if k != ptr {
                            assert(t2p.contains_key(k));
                        }
                    }
                    assert forall|k: Seq<char>|
                        k.len() <= pl && k != ptr implies preserved_at(tbl, t4, k) by {
                        assert(preserved_at(tbl0, t2p, k));
                    }
                },
                ValStep::Failed { .. } => {},
            }
        }
    }
}

/// An array parse completes every pointer strictly inside `ptr` that it
/// touches and leaves pointers no longer than `ptr` untouched.
pub proof fn lemma_shape_array(s: Seq<char>, ptr: Seq<char>, cur: Cursor, tbl: SpecTable)
    requires
        tbl_keyed(tbl),
        tbl_deep_full(tbl, ptr.len() as int),
    ensures
        (match s_array(s, ptr, cur, tbl) {
            ValStep::Parsed { v, cur: c2, tbl: t2 } => {
                &&& tbl_keyed(t2)
                &&& tbl_deep_full(t2, ptr.len() as int)
                &&& tbl_preserved_upto(tbl, t2, ptr.len() as int)
            },
            ValStep::Failed { .. } => true,
        }),
    decreases s.len() - cur.pos, 4int,
{
    let cur0 = skip_ws(s, cur);
    if cur0.pos >= s.len() {
    } else if s[cur0.pos as int] == ']' {
    } else {
        lemma_skip_ws_mono(s, cur);
        lemma_shape_array_items(s, ptr, cur0, tbl, Seq::empty());
    }
}

/// One round of array elements, same shape facts as [`lemma_shape_array`].
pub proof fn lemma_shape_array_items(
    s: Seq<char>,
    ptr: Seq<char>,
    cur: Cursor,
    tbl: SpecTable,
    acc: Seq<SpecValue>,
)
    requires
        tbl_keyed(tbl),
        tbl_deep_full(tbl, ptr.len() as int),
    ensures
        (match s_array_items(s, ptr, cur, tbl, acc) {
            ValStep::Parsed { v, cur: c2, tbl: t2 } => {
                &&& tbl_keyed(t2)
                &&& tbl_deep_full(t2, ptr.len() as int)
                &&& tbl_preserved_upto(tbl, t2, ptr.len() as int)
            },
            ValStep::Failed { .. } => true,
        }),
    decreases s.len() - cur.pos, 3int,
{
    let child = ptr + seq!['/'] + crate::model::dec_digits(acc.len());
    lemma_shape_value(s, child, cur, tbl, false);
    match s_value(s, child, cur, tbl, false) {
        ValStep::Failed { .. } => {},
        ValStep::Parsed { v, cur: c1, tbl: t1 } => {
            let pl = ptr.len() as int;
            let cl = child.len() as int;
            assert(cl > pl);
            assert forall|k: Seq<char>|
                #[trigger] t1.contains_key(k) && k.len() > pl implies entry_full(t1[k]) by {
                if k != child && k.len() <= cl {
                    assert(preserved_at(tbl, t1, k));
                }
            }
            assert forall|k: Seq<char>| k.len() <= pl implies preserved_at(tbl, t1, k) by {
                assert(k != child);
            }
            let acc1 = acc.push(v);
            let c2 = skip_ws(s, c1);
            if c2.pos < s.len() {
                let ch = s[c2.pos as int];
                let c3 = advance(c2);
                if ch == ']' {
                } else if ch == ',' {
                    let c4 = skip_ws(s, c3);
                    lemma_skip_ws_bound(s, c3);
                    if c4.pos > cur.pos {
                        lemma_shape_array_items(s, ptr, c4, t1, acc1);
                        match s_array_items(s, ptr, c4, t1, acc1) {
                            ValStep::Parsed { tbl: tf, .. } => {
                                assert forall|k: Seq<char>| k.len() <= pl implies preserved_at(
                                    tbl,
                                    tf,
                                    k,
                                ) by {
                                    assert(preserved_at(tbl, t1, k));
                                    assert(preserved_at(t1, tf, k));
                                }
                            },
                            ValStep::Failed { .. } => {},
                        }
                    }
                }
            }
        },
    }
}

/// An object parse completes every pointer strictly inside `ptr` that it
/// touches and leaves pointers no longer than `ptr` untouched.
pub proof fn lemma_shape_object(s: Seq<char>, ptr: Seq<char>, cur: Cursor, tbl: SpecTable)
    requires
        tbl_keyed(tbl),
        tbl_deep_full(tbl, ptr.len() as int),
    ensures
        (match s_object(s, ptr, cur, tbl) {
            ValStep::Parsed { v, cur: c2, tbl: t2 } => {
                &&& tbl_keyed(t2)
                &&& tbl_deep_full(t2, ptr.len() as int)
                &&& tbl_preserved_upto(tbl, t2, ptr.len() as int)
            },
            ValStep::Failed { .. } => true,
        }),
    decreases s.len() - cur.pos, 4int,
{
    let cur0 = skip_ws(s, cur);
    if cur0.pos >= s.len() {
    } else if s[cur0.pos as int] == '}' {
    } else {
        lemma_skip_ws_mono(s, cur);
        lemma_shape_object_items(s, ptr, cur0, tbl, Seq::empty());
    }
}

/// One round of object members, same shape facts as [`lemma_shape_object`];
/// the `Key`/`KeyEnd` pair is recorded together under the member's pointer
/// before its value is parsed there.
pub proof fn lemma_shape_object_items(
    s: Seq<char>,
    ptr: Seq<char>,
    cur: Cursor,
    tbl: SpecTable,
    acc: Seq<(Seq<char>, SpecValue)>,
)
    requires
        tbl_keyed(tbl),
        tbl_deep_full(tbl, ptr.len() as int),
    ensures
        (match s_object_items(s, ptr, cur, tbl, acc) {
            ValStep::Parsed { v, cur: c2, tbl: t2 } => {
                &&& tbl_keyed(t2)
                &&& tbl_deep_full(t2, ptr.len() as int)
                &&& tbl_preserved_upto(tbl, t2, ptr.len() as int)
            },
            ValStep::Failed { .. } => true,
        }),
    decreases s.len() - cur.pos, 3int,
{
    if cur.pos >= s.len() || s[cur.pos as int] != '"' {
    } else {
        match s_string(s, advance(cur)) {
            TokStep::Failed { .. } => {},
            TokStep::Parsed { v: key, cur: c1 } => {
                let child = ptr + seq!['/'] + crate::model::escape_seg(key);
                let tbl1 = tbl_set(tbl, child, Prop::Key, crate::model::loc_of(cur));
                let tbl2 = tbl_set(tbl1, child, Prop::KeyEnd, crate::model::loc_of(c1));
                let c2 = skip_ws(s, c1);
                if c2.pos < s.len() && s[c2.pos as int] == ':' {
                    let c3 = skip_ws(s, advance(c2));
                    lemma_s_string_mono(s, advance(cur));
                    lemma_skip_ws_mono(s, c1);
                    lemma_skip_ws_mono(s, advance(c2));
                    lemma_skip_ws_bound(s, advance(c2));
                    lemma_shape_value(s, child, c3, tbl2, false);
                    match s_value(s, child, c3, tbl2, false) {
                        ValStep::Failed { .. } => {},
                        ValStep::Parsed { v, cur: c4, tbl: t4 } => {
                            let pl = ptr.len() as int;
                            let cl = child.len() as int;
                            assert(cl > pl);
                            assert forall|k: Seq<char>|
                                #[trigger] t4.contains_key(k) && k.len() > pl implies entry_full(
                                t4[k],
                            ) by {
                                if k != child && k.len() <= cl {
                                    assert(preserved_at(tbl2, t4, k));
                                }
                            }
                            assert forall|k: Seq<char>| k.len() <= pl implies preserved_at(
                                tbl,
                                t4,
                                k,
                            ) by {
                                assert(preserved_at(tbl2, t4, k));
                            }
                            let acc1 = crate::model::obj_insert(acc, key, v);
                            let c5 = skip_ws(s, c4);
                            if c5.pos < s.len() {
                                let ch = s[c5.pos as int];
                                let c6 = advance(c5);
                                if ch == '}' {
                                } else if ch == ',' {
                                    let c7 = skip_ws(s, c6);
                                    lemma_skip_ws_bound(s, c6);
                                    if c7.pos > cur.pos {
                                        lemma_shape_object_items(s, ptr, c7, t4, acc1);
                                        match s_object_items(s, ptr, c7, t4, acc1) {
                                            ValStep::Parsed { tbl: tf, .. } => {
                                                assert forall|k: Seq<char>|
                                                    k.len() <= pl implies preserved_at(
                                                    tbl,
                                                    tf,
                                                    k,
                                                ) by {
                                                    assert(preserved_at(tbl, t4, k));
                                                    assert(preserved_at(t4, tf, k));
                                                }
                                            },
                                            ValStep::Failed { .. } => {},
                                        }
                                    }
                                }
                            }
                        },
                    }
                }
            },
        }
    }
}

/// The shape of the whole pointer table after a successful parse: every
/// pointer in the table has both `Value` and `ValueEnd`, its `Key` and
/// `KeyEnd` come together or not at all, and the root pointer (the empty
/// string) always has `Value`/`ValueEnd` and never `Key`/`KeyEnd`.
pub proof fn lemma_parse_table_shape(s: Seq<char>, top: bool)
    ensures
        (match s_value(s, Seq::empty(), start_cursor(), Map::empty(), top) {
            ValStep::Parsed { v, cur, tbl } => {
                &&& tbl.contains_key(Seq::empty())
                &&& tbl[Seq::empty()].value_loc is Some
                &&& tbl[Seq::empty()].value_end_loc is Some
                &&& tbl[Seq::empty()].key_loc is None
                &&& tbl[Seq::empty()].key_end_loc is None
                &&& forall|k: Seq<char>| #[trigger] tbl.contains_key(k) ==> entry_full(tbl[k])
            },
            ValStep::Failed { .. } => true,
        }),
{
    let e = Seq::<char>::empty();
    lemma_shape_value(s, e, start_cursor(), Map::empty(), top);
    match s_value(s, e, start_cursor(), Map::empty(), top) {
        ValStep::Parsed { v, cur, tbl } => {
            assert forall|k: Seq<char>| #[trigger] tbl.contains_key(k) implies entry_full(
                tbl[k],
            ) by {
                if k.len() == 0 {
                    assert(k =~= e);
                }
            }
        },
        ValStep::Failed { .. } => {},
    }
}

} // verus!

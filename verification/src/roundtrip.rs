//! The round-trip law: rendering a value and reading it back returns the
//! value. It is split over the pipeline: the tokens of a rendered value are
//! scanned back exactly ([`lemma_tokenize_pretty`]), and parsing those
//! tokens rebuilds the value ([`lemma_parse_tokens`]); [`lemma_round_trip`]
//! chains the two. The law holds of every value the pipeline itself can
//! produce: object keys distinct, string contents free of `"` and `\` (the
//! printer does not re-escape), numerals in the accepted numeral grammar.

use vstd::prelude::*;

use crate::numbers::valid_number_text;
use crate::parser::SpecError;
use crate::printer::spec_pretty;
use crate::printer::spec_pretty_elems;
use crate::printer::spec_pretty_entries;
use crate::printer::spec_spaces;
use crate::parser::SpecValue;
use crate::parser::spec_array_items;
use crate::parser::spec_has_key;
use crate::parser::spec_object_items;
use crate::parser::spec_parse;
use crate::parser::spec_value_at;
use crate::text::is_digit;
use crate::text::is_json_whitespace;
use crate::text::is_number_char;
use crate::text::step_beyond;
use crate::tokenizer::SpecToken;
use crate::tokenizer::spec_lex_from;
use crate::tokenizer::spec_scan_number;
use crate::tokenizer::spec_scan_string;
use crate::tokenizer::spec_tokenize;

verus! {

/// The token rendering of `v`: the sequence the lexer yields for its text.
pub open spec fn spec_tokens_of(v: SpecValue) -> Seq<SpecToken>
    decreases v, 0nat,
{
    match v {
        SpecValue::Object(ms) => seq![SpecToken::LeftBrace] + spec_obj_tokens(ms, 0) + seq![
            SpecToken::RightBrace,
        ],
        SpecValue::Array(es) => seq![SpecToken::LeftBracket] + spec_arr_tokens(es, 0) + seq![
            SpecToken::RightBracket,
        ],
        SpecValue::Str(s) => seq![SpecToken::Str(s)],
        SpecValue::Num(x) => seq![SpecToken::Num(x)],
        SpecValue::Bool(b) => if b {
            seq![SpecToken::True]
        } else {
            seq![SpecToken::False]
        },
        SpecValue::Null => seq![SpecToken::Null],
    }
}

/// The tokens of the members of `ms` from `k` on: key, `:`, value, and a
/// `,` before each further member.
pub open spec fn spec_obj_tokens(ms: Seq<(Seq<char>, SpecValue)>, k: nat) -> Seq<SpecToken>
    decreases ms, ms.len() - k,
{
    if k >= ms.len() {
        Seq::empty()
    } else {
        let sep: Seq<SpecToken> = if k + 1 < ms.len() {
            seq![SpecToken::Comma] + spec_obj_tokens(ms, k + 1)
        } else {
            Seq::empty()
        };
        seq![SpecToken::Str(ms[k as int].0), SpecToken::Colon] + spec_tokens_of(ms[k as int].1)
            + sep
    }
}

/// The tokens of the elements of `es` from `k` on, with a `,` before each
/// further element.
pub open spec fn spec_arr_tokens(es: Seq<SpecValue>, k: nat) -> Seq<SpecToken>
    decreases es, es.len() - k,
{
    if k >= es.len() {
        Seq::empty()
    } else {
        let sep: Seq<SpecToken> = if k + 1 < es.len() {
            seq![SpecToken::Comma] + spec_arr_tokens(es, k + 1)
        } else {
            Seq::empty()
        };
        spec_tokens_of(es[k as int]) + sep
    }
}

/// No two entries share a key.
pub open spec fn spec_distinct_keys(ms: Seq<(Seq<char>, SpecValue)>) -> bool {
    forall|a: int, b: int| 0 <= a < b < ms.len() ==> ms[a].0 != ms[b].0
}

/// Every object below `v` has distinct keys: what the parser guarantees of
/// every tree it builds.
pub open spec fn spec_wf(v: SpecValue) -> bool
    decreases v, 0nat,
{
    match v {
        SpecValue::Object(ms) => spec_distinct_keys(ms) && spec_wf_entries(ms, 0),
        SpecValue::Array(es) => spec_wf_elems(es, 0),
        _ => true,
    }
}

pub open spec fn spec_wf_entries(ms: Seq<(Seq<char>, SpecValue)>, k: nat) -> bool
    decreases ms, ms.len() - k,
{
    k >= ms.len() || (spec_wf(ms[k as int].1) && spec_wf_entries(ms, k + 1))
}

pub open spec fn spec_wf_elems(es: Seq<SpecValue>, k: nat) -> bool
    decreases es, es.len() - k,
{
    k >= es.len() || (spec_wf(es[k as int]) && spec_wf_elems(es, k + 1))
}

/// `seg` sits inside `t` starting at index `a`.
pub open spec fn seg_at<T>(t: Seq<T>, a: nat, seg: Seq<T>) -> bool {
    &&& a + seg.len() <= t.len()
    &&& t.subrange(a as int, (a + seg.len()) as int) == seg
}

pub proof fn lemma_seg_index<T>(t: Seq<T>, a: nat, seg: Seq<T>, q: int)
    requires
        seg_at(t, a, seg),
        0 <= q < seg.len(),
    ensures
        t[a + q] == seg[q],
{
    assert(t.subrange(a as int, (a + seg.len()) as int)[q] == t[a + q]);
}

pub proof fn lemma_seg_sub<T>(t: Seq<T>, a: nat, seg: Seq<T>, off: nat, sub: Seq<T>)
    requires
        seg_at(t, a, seg),
        off + sub.len() <= seg.len(),
        seg.subrange(off as int, (off + sub.len()) as int) == sub,
    ensures
        seg_at(t, a + off, sub),
{
    assert(t.subrange((a + off) as int, (a + off + sub.len()) as int) =~= sub) by {
        assert(forall|q: int|
            0 <= q < sub.len() ==> #[trigger] t.subrange(
                (a + off) as int,
                (a + off + sub.len()) as int,
            )[q] == t[a + off + q]);
        assert(forall|q: int|
            0 <= q < sub.len() ==> #[trigger] t.subrange(a as int, (a + seg.len()) as int)[off
                + q] == t[a + off + q]);
        assert(forall|q: int|
            0 <= q < sub.len() ==> seg.subrange(off as int, (off + sub.len()) as int)[q]
                == #[trigger] sub[q]);
    }
}

/// Parsing a token sequence that carries the rendering of a well-formed `v`
/// at index `i` yields exactly `v` and stops right past the rendering.
pub proof fn lemma_parse_tokens(t: Seq<SpecToken>, i: nat, v: SpecValue)
    requires
        spec_wf(v),
        seg_at(t, i, spec_tokens_of(v)),
    ensures
        spec_value_at(t, i) == Ok::<(SpecValue, nat), SpecError>(
            (v, i + spec_tokens_of(v).len()),
        ),
    decreases v, 0nat,
{
    let toks = spec_tokens_of(v);
    lemma_seg_index(t, i, toks, 0);
    match v {
        SpecValue::Object(ms) => {
            assert(t[i as int] == SpecToken::LeftBrace);
            let body = spec_obj_tokens(ms, 0);
            if ms.len() == 0 {
                lemma_seg_index(t, i, toks, 1);
                assert(t[i as int + 1] == SpecToken::RightBrace);
                assert(ms =~= Seq::<(Seq<char>, SpecValue)>::empty());
            } else {
                assert(toks.subrange(1, 1 + body.len() as int) =~= body);
                lemma_seg_sub(t, i, toks, 1, body);
                lemma_seg_index(t, i, toks, toks.len() as int - 1);
                assert(t[(i + 1 + body.len()) as int] == SpecToken::RightBrace);
                lemma_obj_items_parse(t, i + 1, ms, 0);
                assert(ms.take(0) =~= Seq::<(Seq<char>, SpecValue)>::empty());
            }
        },
        SpecValue::Array(es) => {
            assert(t[i as int] == SpecToken::LeftBracket);
            let body = spec_arr_tokens(es, 0);
            if es.len() == 0 {
                lemma_seg_index(t, i, toks, 1);
                assert(t[i as int + 1] == SpecToken::RightBracket);
                assert(es =~= Seq::<SpecValue>::empty());
            } else {
                assert(toks.subrange(1, 1 + body.len() as int) =~= body);
                lemma_seg_sub(t, i, toks, 1, body);
                lemma_seg_index(t, i, toks, toks.len() as int - 1);
                assert(t[(i + 1 + body.len()) as int] == SpecToken::RightBracket);
                lemma_arr_items_parse(t, i + 1, es, 0);
                assert(es.take(0) =~= Seq::<SpecValue>::empty());
            }
        },
        _ => {},
    }
}

/// One member group of the object production: with the members before `k`
/// already read and the tokens of members `k..` followed by `}` at `pos`,
/// the production returns the whole object.
pub proof fn lemma_obj_items_parse(t: Seq<SpecToken>, pos: nat, ms: Seq<(Seq<char>, SpecValue)>, k: nat)
    requires
        spec_distinct_keys(ms),
        spec_wf_entries(ms, k),
        k < ms.len(),
        pos + spec_obj_tokens(ms, k).len() + 1 <= t.len(),
        seg_at(t, pos, spec_obj_tokens(ms, k)),
        t[(pos + spec_obj_tokens(ms, k).len()) as int] == SpecToken::RightBrace,
    ensures
        spec_object_items(t, pos, ms.take(k as int)) == Ok::<(SpecValue, nat), SpecError>(
            (SpecValue::Object(ms), pos + spec_obj_tokens(ms, k).len() + 1),
        ),
    decreases ms, ms.len() - k,
{
    let toks = spec_obj_tokens(ms, k);
    let key = ms[k as int].0;
    let mv = ms[k as int].1;
    let vtoks = spec_tokens_of(mv);
    lemma_seg_index(t, pos, toks, 0);
    lemma_seg_index(t, pos, toks, 1);
    assert(t[pos as int] == SpecToken::Str(key));
    assert(t[pos as int + 1] == SpecToken::Colon);
    // The member's value sits at pos + 2.
    assert(toks.subrange(2, (2 + vtoks.len()) as int) =~= vtoks);
    lemma_seg_sub(t, pos, toks, 2, vtoks);
    lemma_parse_tokens(t, pos + 2, mv);
    let j = pos + 2 + vtoks.len();
    assert(spec_value_at(t, pos + 2) == Ok::<(SpecValue, nat), SpecError>((mv, j)));
    // The keys read so far are all different from this member's key.
    assert(!spec_has_key(ms.take(k as int), key)) by {
        assert(forall|q: int|
            0 <= q < k ==> (#[trigger] ms.take(k as int)[q]).0 == ms[q].0);
    }
    let done2 = ms.take(k as int).push(ms[k as int]);
    assert(done2 =~= ms.take(k as int + 1));
    if k + 1 < ms.len() {
        let rest = spec_obj_tokens(ms, k + 1);
        lemma_seg_index(t, pos, toks, (2 + vtoks.len()) as int);
        assert(t[j as int] == SpecToken::Comma);
        assert(step_beyond(t.len(), pos, j + 1) == j + 1);
        assert(toks.subrange((3 + vtoks.len()) as int, (3 + vtoks.len() + rest.len()) as int)
            =~= rest);
        lemma_seg_sub(t, pos, toks, 3 + vtoks.len(), rest);
        lemma_obj_items_parse(t, j + 1, ms, k + 1);
        assert(spec_object_items(t, j + 1, ms.take(k as int + 1)) == Ok::<
            (SpecValue, nat),
            SpecError,
        >((SpecValue::Object(ms), j + 1 + rest.len() + 1)));
    } else {
        assert(t[j as int] == SpecToken::RightBrace);
        assert(ms.take(k as int + 1) =~= ms);
    }
}

/// One element group of the array production, as [`lemma_obj_items_parse`]
/// for objects.
pub proof fn lemma_arr_items_parse(t: Seq<SpecToken>, pos: nat, es: Seq<SpecValue>, k: nat)
    requires
        spec_wf_elems(es, k),
        k < es.len(),
        pos + spec_arr_tokens(es, k).len() + 1 <= t.len(),
        seg_at(t, pos, spec_arr_tokens(es, k)),
        t[(pos + spec_arr_tokens(es, k).len()) as int] == SpecToken::RightBracket,
    ensures
        spec_array_items(t, pos, es.take(k as int)) == Ok::<(SpecValue, nat), SpecError>(
            (SpecValue::Array(es), pos + spec_arr_tokens(es, k).len() + 1),
        ),
    decreases es, es.len() - k,
{
    let toks = spec_arr_tokens(es, k);
    let ev = es[k as int];
    let vtoks = spec_tokens_of(ev);
    assert(toks.subrange(0, vtoks.len() as int) =~= vtoks);
    lemma_seg_sub(t, pos, toks, 0, vtoks);
    lemma_parse_tokens(t, pos, ev);
    let j = pos + vtoks.len();
    // The rendering of a value never opens with `]`, so the production
    // reads an element here, not the end of the array.
    assert(t[pos as int] != SpecToken::RightBracket) by {
        lemma_seg_index(t, pos, toks, 0);
        assert(t[pos as int] == vtoks[0]);
    }
    let done2 = es.take(k as int).push(ev);
    assert(done2 =~= es.take(k as int + 1));
    if k + 1 < es.len() {
        let rest = spec_arr_tokens(es, k + 1);
        lemma_seg_index(t, pos, toks, vtoks.len() as int);
        assert(t[j as int] == SpecToken::Comma);
        assert(step_beyond(t.len(), pos, j + 1) == j + 1);
        assert(toks.subrange((vtoks.len() + 1) as int, (vtoks.len() + 1 + rest.len()) as int)
            =~= rest);
        lemma_seg_sub(t, pos, toks, vtoks.len() + 1, rest);
        lemma_arr_items_parse(t, j + 1, es, k + 1);
    } else {
        assert(t[j as int] == SpecToken::RightBracket);
        assert(es.take(k as int + 1) =~= es);
    }
}

/// No `"` and no `\\` among the characters: the printer copies string
/// content verbatim, so only such content survives a rescan unchanged.
pub open spec fn clean_text(s: Seq<char>) -> bool {
    forall|k: int| 0 <= k < s.len() ==> s[k] != '"' && s[k] != '\\'
}

/// The rendering of `v` scans back to its own tokens: strings and keys are
/// clean, numerals are in the accepted numeral grammar and open with a
/// digit or `-`, as every scanned numeral does.
pub open spec fn spec_printable(v: SpecValue) -> bool
    decreases v, 0nat,
{
    match v {
        SpecValue::Object(ms) => spec_printable_entries(ms, 0),
        SpecValue::Array(es) => spec_printable_elems(es, 0),
        SpecValue::Str(s) => clean_text(s),
        SpecValue::Num(x) => valid_number_text(x) && (is_digit(x[0]) || x[0] == '-'),
        _ => true,
    }
}

pub open spec fn spec_printable_entries(ms: Seq<(Seq<char>, SpecValue)>, k: nat) -> bool
    decreases ms, ms.len() - k,
{
    k >= ms.len() || (clean_text(ms[k as int].0) && spec_printable(ms[k as int].1)
        && spec_printable_entries(ms, k + 1))
}

pub open spec fn spec_printable_elems(es: Seq<SpecValue>, k: nat) -> bool
    decreases es, es.len() - k,
{
    k >= es.len() || (spec_printable(es[k as int]) && spec_printable_elems(es, k + 1))
}

/// The rendered entries of `ms` from `k` on, without the separator that
/// [`spec_pretty_entries`] puts before an entry with `k > 0`; the separator
/// of each later entry stays inside.
pub open spec fn spec_entry_tail_text(ms: Seq<(Seq<char>, SpecValue)>, k: nat, ind: nat) -> Seq<
    char,
>
    decreases ms.len() - k,
{
    if k >= ms.len() {
        Seq::empty()
    } else {
        spec_spaces(ind + 2) + "\""@ + ms[k as int].0 + "\": "@ + spec_pretty(
            ms[k as int].1,
            ind + 2,
        ) + (if k + 1 < ms.len() {
            ",\n"@ + spec_entry_tail_text(ms, k + 1, ind)
        } else {
            Seq::empty()
        })
    }
}

/// The rendered elements of `es` from `k` on, without the leading separator.
pub open spec fn spec_elem_tail_text(es: Seq<SpecValue>, k: nat, ind: nat) -> Seq<char>
    decreases es.len() - k,
{
    if k >= es.len() {
        Seq::empty()
    } else {
        spec_spaces(ind + 2) + spec_pretty(es[k as int], ind + 2) + (if k + 1 < es.len() {
            ",\n"@ + spec_elem_tail_text(es, k + 1, ind)
        } else {
            Seq::empty()
        })
    }
}

pub proof fn lemma_entries_text_shape(ms: Seq<(Seq<char>, SpecValue)>, k: nat, ind: nat)
    requires
        k < ms.len(),
    ensures
        k == 0 ==> spec_pretty_entries(ms, k, ind) == spec_entry_tail_text(ms, k, ind),
        k > 0 ==> spec_pretty_entries(ms, k, ind) == ",\n"@ + spec_entry_tail_text(ms, k, ind),
    decreases ms.len() - k,
{
    if k + 1 < ms.len() {
        lemma_entries_text_shape(ms, k + 1, ind);
    }
    let head = spec_spaces(ind + 2) + "\""@ + ms[k as int].0 + "\": "@ + spec_pretty(
        ms[k as int].1,
        ind + 2,
    );
    if k + 1 < ms.len() {
        assert(spec_pretty_entries(ms, k + 1, ind) == ",\n"@ + spec_entry_tail_text(
            ms,
            k + 1,
            ind,
        ));
        if k == 0 {
            assert(spec_pretty_entries(ms, k, ind) =~= spec_entry_tail_text(ms, k, ind));
        } else {
            assert(spec_pretty_entries(ms, k, ind) =~= ",\n"@ + spec_entry_tail_text(ms, k, ind));
        }
    } else {
        assert(spec_pretty_entries(ms, k + 1, ind) =~= Seq::<char>::empty());
        if k == 0 {
            assert(spec_pretty_entries(ms, k, ind) =~= spec_entry_tail_text(ms, k, ind));
        } else {
            assert(spec_pretty_entries(ms, k, ind) =~= ",\n"@ + spec_entry_tail_text(ms, k, ind));
        }
    }
}

pub proof fn lemma_elems_text_shape(es: Seq<SpecValue>, k: nat, ind: nat)
    requires
        k < es.len(),
    ensures
        k == 0 ==> spec_pretty_elems(es, k, ind) == spec_elem_tail_text(es, k, ind),
        k > 0 ==> spec_pretty_elems(es, k, ind) == ",\n"@ + spec_elem_tail_text(es, k, ind),
    decreases es.len() - k,
{
    if k + 1 < es.len() {
        lemma_elems_text_shape(es, k + 1, ind);
        if k == 0 {
            assert(spec_pretty_elems(es, k, ind) =~= spec_elem_tail_text(es, k, ind));
        } else {
            assert(spec_pretty_elems(es, k, ind) =~= ",\n"@ + spec_elem_tail_text(es, k, ind));
        }
    } else {
        assert(spec_pretty_elems(es, k + 1, ind) =~= Seq::<char>::empty());
        if k == 0 {
            assert(spec_pretty_elems(es, k, ind) =~= spec_elem_tail_text(es, k, ind));
        } else {
            assert(spec_pretty_elems(es, k, ind) =~= ",\n"@ + spec_elem_tail_text(es, k, ind));
        }
    }
}

/// The lexer skips a whitespace region without yielding a token.
pub proof fn lemma_lex_ws(s: Seq<char>, i: nat, w: Seq<char>, acc: Seq<SpecToken>)
    requires
        seg_at(s, i, w),
        forall|q: int| 0 <= q < w.len() ==> is_json_whitespace(#[trigger] w[q]),
    ensures
        spec_lex_from(s, i, acc) == spec_lex_from(s, i + w.len(), acc),
    decreases w.len(),
{
    if w.len() > 0 {
        lemma_seg_index(s, i, w, 0);
        assert(is_json_whitespace(s[i as int]));
        assert(w.subrange(1, w.len() as int) =~= w.drop_first());
        lemma_seg_sub(s, i, w, 1, w.drop_first());
        lemma_lex_ws(s, i + 1, w.drop_first(), acc);
    }
}

/// The string scan copies clean content verbatim up to the closing quote.
pub proof fn lemma_scan_clean(s: Seq<char>, i: nat, content: Seq<char>, acc: Seq<char>)
    requires
        seg_at(s, i, content),
        i + content.len() < s.len(),
        s[(i + content.len()) as int] == '"',
        clean_text(content),
    ensures
        spec_scan_string(s, i, acc) == Ok::<(Seq<char>, nat), SpecError>(
            (acc + content, i + content.len()),
        ),
    decreases content.len(),
{
    if content.len() == 0 {
        assert(acc + content =~= acc);
    } else {
        lemma_seg_index(s, i, content, 0);
        let c = content[0];
        assert(c != '"' && c != '\\');
        assert(content.subrange(1, content.len() as int) =~= content.drop_first());
        lemma_seg_sub(s, i, content, 1, content.drop_first());
        assert(clean_text(content.drop_first()));
        lemma_scan_clean(s, i + 1, content.drop_first(), acc.push(c));
        assert(acc.push(c) + content.drop_first() =~= acc + content);
    }
}

/// The number scan consumes the whole numeral and stops at its boundary.
pub proof fn lemma_scan_numeral(s: Seq<char>, i: nat, text: Seq<char>, seen_dot: bool, acc: Seq<
    char,
>)
    requires
        seg_at(s, i, text),
        i + text.len() == s.len() || !is_number_char(s[(i + text.len()) as int]),
        forall|q: int| 0 <= q < text.len() ==> is_number_char(#[trigger] text[q]),
        seen_dot ==> forall|q: int| 0 <= q < text.len() ==> #[trigger] text[q] != '.',
        !seen_dot ==> (forall|a: int, b: int|
            0 <= a < text.len() && 0 <= b < text.len() && text[a] == '.' && text[b] == '.'
                ==> a == b),
    ensures
        spec_scan_number(s, i, seen_dot, acc) == Ok::<(Seq<char>, nat), SpecError>(
            (acc + text, i + text.len()),
        ),
    decreases text.len(),
{
    if text.len() == 0 {
        assert(acc + text =~= acc);
    } else {
        lemma_seg_index(s, i, text, 0);
        let c = text[0];
        assert(is_number_char(c));
        assert(!(c == '.' && seen_dot));
        assert(text.subrange(1, text.len() as int) =~= text.drop_first());
        lemma_seg_sub(s, i, text, 1, text.drop_first());
        let sd = seen_dot || c == '.';
        if sd {
            assert(forall|q: int|
                0 <= q < text.drop_first().len() ==> #[trigger] text.drop_first()[q] != '.');
        } else {
            assert(forall|a: int, b: int|
                0 <= a < text.drop_first().len() && 0 <= b < text.drop_first().len()
                    && text.drop_first()[a] == '.' && text.drop_first()[b] == '.' ==> a == b);
        }
        lemma_scan_numeral(s, i + 1, text.drop_first(), sd, acc.push(c));
        assert(acc.push(c) + text.drop_first() =~= acc + text);
    }
}

/// The lexer reads one quoted clean string as one token.
pub proof fn lemma_lex_string(s: Seq<char>, i: nat, content: Seq<char>, acc: Seq<SpecToken>)
    requires
        seg_at(s, i, "\""@ + content + "\""@),
        clean_text(content),
    ensures
        spec_lex_from(s, i, acc) == spec_lex_from(
            s,
            i + content.len() + 2,
            acc.push(SpecToken::Str(content)),
        ),
{
    reveal_strlit("\"");
    let full = "\""@ + content + "\""@;
    lemma_seg_index(s, i, full, 0);
    assert(s[i as int] == '"');
    assert(full.subrange(1, (1 + content.len()) as int) =~= content);
    lemma_seg_sub(s, i, full, 1, content);
    lemma_seg_index(s, i, full, (1 + content.len()) as int);
    assert(s[(i + 1 + content.len()) as int] == '"');
    lemma_scan_clean(s, i + 1, content, Seq::empty());
    assert(Seq::empty() + content =~= content);
    assert(step_beyond(s.len(), i, i + 1 + content.len() + 1) == i + content.len() + 2);
}

/// The lexer turns the rendering of a printable value, sitting at `i`, into
/// exactly the value's tokens, and goes on right past the rendering. A
/// numeral needs its boundary: the character after it (if any) must not
/// belong to a numeral, which every caller's layout supplies.
#[verifier::rlimit(80)]
pub proof fn lemma_lex_pretty(s: Seq<char>, i: nat, v: SpecValue, ind: nat, acc: Seq<SpecToken>)
    requires
        spec_printable(v),
        seg_at(s, i, spec_pretty(v, ind)),
        v is Num ==> (i + spec_pretty(v, ind).len() == s.len() || !is_number_char(
            s[(i + spec_pretty(v, ind).len()) as int],
        )),
    ensures
        spec_lex_from(s, i, acc) == spec_lex_from(
            s,
            i + spec_pretty(v, ind).len(),
            acc + spec_tokens_of(v),
        ),
    decreases v, 0nat,
{
    let full = spec_pretty(v, ind);
    match v {
        SpecValue::Object(ms) => {
            reveal_strlit("{");
            reveal_strlit("}");
            reveal_strlit("\n");
            lemma_seg_index(s, i, full, 0);
            assert(s[i as int] == '{');
            let acc1 = acc.push(SpecToken::LeftBrace);
            assert(spec_lex_from(s, i, acc) == spec_lex_from(s, i + 1, acc1));
            if ms.len() == 0 {
                lemma_seg_index(s, i, full, 1);
                assert(s[i as int + 1] == '}');
                let acc2 = acc1.push(SpecToken::RightBrace);
                assert(spec_lex_from(s, i + 1, acc1) == spec_lex_from(s, i + 2, acc2));
                assert(acc + spec_tokens_of(v) =~= acc2);
            } else {
                let ee = spec_pretty_entries(ms, 0, ind);
                let sp = spec_spaces(ind);
                lemma_entries_text_shape(ms, 0, ind);
                lemma_seg_index(s, i, full, 1);
                assert(s[i as int + 1] == '\n');
                assert(spec_lex_from(s, i + 1, acc1) == spec_lex_from(s, i + 2, acc1));
                assert(full.subrange(2, (2 + ee.len()) as int) =~= ee);
                lemma_seg_sub(s, i, full, 2, ee);
                lemma_seg_index(s, i, full, (2 + ee.len()) as int);
                assert(s[(i + 2 + ee.len()) as int] == '\n');
                lemma_lex_obj_entries(s, i + 2, ms, 0, ind, acc1);
                let acc2 = acc1 + spec_obj_tokens(ms, 0);
                assert(spec_lex_from(s, i + 2, acc1) == spec_lex_from(
                    s,
                    i + 2 + ee.len(),
                    acc2,
                ));
                assert(spec_lex_from(s, i + 2 + ee.len(), acc2) == spec_lex_from(
                    s,
                    i + 3 + ee.len(),
                    acc2,
                ));
                assert(full.subrange(
                    (3 + ee.len()) as int,
                    (3 + ee.len() + ind) as int,
                ) =~= sp);
                lemma_seg_sub(s, i, full, 3 + ee.len(), sp);
                lemma_lex_ws(s, i + 3 + ee.len(), sp, acc2);
                lemma_seg_index(s, i, full, (3 + ee.len() + ind) as int);
                assert(s[(i + 3 + ee.len() + ind) as int] == '}');
                let acc3 = acc2.push(SpecToken::RightBrace);
                assert(spec_lex_from(s, i + 3 + ee.len() + ind, acc2) == spec_lex_from(
                    s,
                    i + 4 + ee.len() + ind,
                    acc3,
                ));
                assert(i + full.len() == i + 4 + ee.len() + ind);
                assert(acc + spec_tokens_of(v) =~= acc3);
            }
        },
        SpecValue::Array(es) => {
            reveal_strlit("[");
            reveal_strlit("]");
            reveal_strlit("\n");
            lemma_seg_index(s, i, full, 0);
            assert(s[i as int] == '[');
            let acc1 = acc.push(SpecToken::LeftBracket);
            assert(spec_lex_from(s, i, acc) == spec_lex_from(s, i + 1, acc1));
            if es.len() == 0 {
                lemma_seg_index(s, i, full, 1);
                assert(s[i as int + 1] == ']');
                let acc2 = acc1.push(SpecToken::RightBracket);
                assert(spec_lex_from(s, i + 1, acc1) == spec_lex_from(s, i + 2, acc2));
                assert(acc + spec_tokens_of(v) =~= acc2);
            } else {
                let ee = spec_pretty_elems(es, 0, ind);
                let sp = spec_spaces(ind);
                lemma_elems_text_shape(es, 0, ind);
                lemma_seg_index(s, i, full, 1);
                assert(s[i as int + 1] == '\n');
                assert(spec_lex_from(s, i + 1, acc1) == spec_lex_from(s, i + 2, acc1));
                assert(full.subrange(2, (2 + ee.len()) as int) =~= ee);
                lemma_seg_sub(s, i, full, 2, ee);
                lemma_seg_index(s, i, full, (2 + ee.len()) as int);
                assert(s[(i + 2 + ee.len()) as int] == '\n');
                lemma_lex_arr_elems(s, i + 2, es, 0, ind, acc1);
                let acc2 = acc1 + spec_arr_tokens(es, 0);
                assert(spec_lex_from(s, i + 2, acc1) == spec_lex_from(
                    s,
                    i + 2 + ee.len(),
                    acc2,
                ));
                assert(spec_lex_from(s, i + 2 + ee.len(), acc2) == spec_lex_from(
                    s,
                    i + 3 + ee.len(),
                    acc2,
                ));
                assert(full.subrange(
                    (3 + ee.len()) as int,
                    (3 + ee.len() + ind) as int,
                ) =~= sp);
                lemma_seg_sub(s, i, full, 3 + ee.len(), sp);
                lemma_lex_ws(s, i + 3 + ee.len(), sp, acc2);
                lemma_seg_index(s, i, full, (3 + ee.len() + ind) as int);
                assert(s[(i + 3 + ee.len() + ind) as int] == ']');
                let acc3 = acc2.push(SpecToken::RightBracket);
                assert(spec_lex_from(s, i + 3 + ee.len() + ind, acc2) == spec_lex_from(
                    s,
                    i + 4 + ee.len() + ind,
                    acc3,
                ));
                assert(i + full.len() == i + 4 + ee.len() + ind);
                assert(acc + spec_tokens_of(v) =~= acc3);
            }
        },
        SpecValue::Str(text) => {
            reveal_strlit("\"");
            lemma_lex_string(s, i, text, acc);
            assert(acc + spec_tokens_of(v) =~= acc.push(SpecToken::Str(text)));
        },
        SpecValue::Num(x) => {
            lemma_seg_index(s, i, full, 0);
            let c = s[i as int];
            assert(is_digit(c) || c == '-');
            lemma_scan_numeral(s, i, x, false, Seq::empty());
            assert(Seq::empty() + x =~= x);
            assert(step_beyond(s.len(), i, i + x.len()) == i + x.len());
            assert(spec_lex_from(s, i, acc) == spec_lex_from(
                s,
                i + x.len(),
                acc.push(SpecToken::Num(x)),
            ));
            assert(acc + spec_tokens_of(v) =~= acc.push(SpecToken::Num(x)));
        },
        SpecValue::Bool(b) => {
            if b {
                reveal_strlit("true");
                lemma_seg_index(s, i, full, 0);
                lemma_seg_index(s, i, full, 1);
                lemma_seg_index(s, i, full, 2);
                lemma_seg_index(s, i, full, 3);
                assert(spec_lex_from(s, i, acc) == spec_lex_from(
                    s,
                    i + 4,
                    acc.push(SpecToken::True),
                ));
                assert(acc + spec_tokens_of(v) =~= acc.push(SpecToken::True));
            } else {
                reveal_strlit("false");
                lemma_seg_index(s, i, full, 0);
                lemma_seg_index(s, i, full, 1);
                lemma_seg_index(s, i, full, 2);
                lemma_seg_index(s, i, full, 3);
                lemma_seg_index(s, i, full, 4);
                assert(spec_lex_from(s, i, acc) == spec_lex_from(
                    s,
                    i + 5,
                    acc.push(SpecToken::False),
                ));
                assert(acc + spec_tokens_of(v) =~= acc.push(SpecToken::False));
            }
        },
        SpecValue::Null => {
            reveal_strlit("null");
            lemma_seg_index(s, i, full, 0);
            lemma_seg_index(s, i, full, 1);
            lemma_seg_index(s, i, full, 2);
            lemma_seg_index(s, i, full, 3);
            assert(spec_lex_from(s, i, acc) == spec_lex_from(
                s,
                i + 4,
                acc.push(SpecToken::Null),
            ));
            assert(acc + spec_tokens_of(v) =~= acc.push(SpecToken::Null));
        },
    }
}

/// The lexer turns the rendered members from `k` on — key, `:`, value, and
/// `,` plus newline between members — into their tokens.
#[verifier::rlimit(80)]
pub proof fn lemma_lex_obj_entries(
    s: Seq<char>,
    pos: nat,
    ms: Seq<(Seq<char>, SpecValue)>,
    k: nat,
    ind: nat,
    acc: Seq<SpecToken>,
)
    requires
        k < ms.len(),
        spec_printable_entries(ms, k),
        seg_at(s, pos, spec_entry_tail_text(ms, k, ind)),
        pos + spec_entry_tail_text(ms, k, ind).len() < s.len(),
        !is_number_char(s[(pos + spec_entry_tail_text(ms, k, ind).len()) as int]),
    ensures
        spec_lex_from(s, pos, acc) == spec_lex_from(
            s,
            pos + spec_entry_tail_text(ms, k, ind).len(),
            acc + spec_obj_tokens(ms, k),
        ),
    decreases ms, ms.len() - k,
{
    reveal_strlit("\"");
    reveal_strlit("\": ");
    reveal_strlit(",\n");
    let tail = spec_entry_tail_text(ms, k, ind);
    let spc = spec_spaces(ind + 2);
    let a = spc.len();
    let key = ms[k as int].0;
    let m = key.len();
    let value = ms[k as int].1;
    let vt = spec_pretty(value, ind + 2);
    let w = vt.len();
    assert(tail.subrange(0, a as int) =~= spc);
    lemma_seg_sub(s, pos, tail, 0, spc);
    lemma_lex_ws(s, pos, spc, acc);
    assert(tail.subrange(a as int, (a + m + 2) as int) =~= "\""@ + key + "\""@);
    lemma_seg_sub(s, pos, tail, a, "\""@ + key + "\""@);
    lemma_lex_string(s, pos + a, key, acc);
    let acc1 = acc.push(SpecToken::Str(key));
    lemma_seg_index(s, pos, tail, (a + m + 2) as int);
    assert(s[(pos + a + m + 2) as int] == ':');
    let acc2 = acc1.push(SpecToken::Colon);
    assert(spec_lex_from(s, pos + a + m + 2, acc1) == spec_lex_from(
        s,
        pos + a + m + 3,
        acc2,
    ));
    lemma_seg_index(s, pos, tail, (a + m + 3) as int);
    assert(s[(pos + a + m + 3) as int] == ' ');
    assert(spec_lex_from(s, pos + a + m + 3, acc2) == spec_lex_from(
        s,
        pos + a + m + 4,
        acc2,
    ));
    assert(tail.subrange((a + m + 4) as int, (a + m + 4 + w) as int) =~= vt);
    lemma_seg_sub(s, pos, tail, a + m + 4, vt);
    if k + 1 < ms.len() {
        lemma_seg_index(s, pos, tail, (a + m + 4 + w) as int);
        assert(s[(pos + a + m + 4 + w) as int] == ',');
        assert(!is_number_char(','));
    }
    lemma_lex_pretty(s, pos + a + m + 4, value, ind + 2, acc2);
    let acc3 = acc2 + spec_tokens_of(value);
    if k + 1 < ms.len() {
        let rest = spec_entry_tail_text(ms, k + 1, ind);
        let acc4 = acc3.push(SpecToken::Comma);
        assert(spec_lex_from(s, pos + a + m + 4 + w, acc3) == spec_lex_from(
            s,
            pos + a + m + 5 + w,
            acc4,
        ));
        lemma_seg_index(s, pos, tail, (a + m + 5 + w) as int);
        assert(s[(pos + a + m + 5 + w) as int] == '\n');
        assert(spec_lex_from(s, pos + a + m + 5 + w, acc4) == spec_lex_from(
            s,
            pos + a + m + 6 + w,
            acc4,
        ));
        assert(tail.subrange((a + m + 6 + w) as int, tail.len() as int) =~= rest);
        lemma_seg_sub(s, pos, tail, a + m + 6 + w, rest);
        lemma_lex_obj_entries(s, pos + a + m + 6 + w, ms, k + 1, ind, acc4);
        assert(pos + tail.len() == pos + a + m + 6 + w + rest.len());
        assert(acc + spec_obj_tokens(ms, k) =~= acc4 + spec_obj_tokens(ms, k + 1));
    } else {
        assert(pos + tail.len() == pos + a + m + 4 + w);
        assert(acc + spec_obj_tokens(ms, k) =~= acc3);
    }
}

/// The lexer turns the rendered elements from `k` on into their tokens.
#[verifier::rlimit(80)]
pub proof fn lemma_lex_arr_elems(
    s: Seq<char>,
    pos: nat,
    es: Seq<SpecValue>,
    k: nat,
    ind: nat,
    acc: Seq<SpecToken>,
)
    requires
        k < es.len(),
        spec_printable_elems(es, k),
        seg_at(s, pos, spec_elem_tail_text(es, k, ind)),
        pos + spec_elem_tail_text(es, k, ind).len() < s.len(),
        !is_number_char(s[(pos + spec_elem_tail_text(es, k, ind).len()) as int]),
    ensures
        spec_lex_from(s, pos, acc) == spec_lex_from(
            s,
            pos + spec_elem_tail_text(es, k, ind).len(),
            acc + spec_arr_tokens(es, k),
        ),
    decreases es, es.len() - k,
{
    reveal_strlit(",\n");
    let tail = spec_elem_tail_text(es, k, ind);
    let spc = spec_spaces(ind + 2);
    let a = spc.len();
    let value = es[k as int];
    let vt = spec_pretty(value, ind + 2);
    let w = vt.len();
    assert(tail.subrange(0, a as int) =~= spc);
    lemma_seg_sub(s, pos, tail, 0, spc);
    lemma_lex_ws(s, pos, spc, acc);
    assert(tail.subrange(a as int, (a + w) as int) =~= vt);
    lemma_seg_sub(s, pos, tail, a, vt);
    if k + 1 < es.len() {
        lemma_seg_index(s, pos, tail, (a + w) as int);
        assert(s[(pos + a + w) as int] == ',');
        assert(!is_number_char(','));
    }
    lemma_lex_pretty(s, pos + a, value, ind + 2, acc);
    let acc1 = acc + spec_tokens_of(value);
    if k + 1 < es.len() {
        let rest = spec_elem_tail_text(es, k + 1, ind);
        let acc2 = acc1.push(SpecToken::Comma);
        assert(spec_lex_from(s, pos + a + w, acc1) == spec_lex_from(
            s,
            pos + a + w + 1,
            acc2,
        ));
        lemma_seg_index(s, pos, tail, (a + w + 1) as int);
        assert(s[(pos + a + w + 1) as int] == '\n');
        assert(spec_lex_from(s, pos + a + w + 1, acc2) == spec_lex_from(
            s,
            pos + a + w + 2,
            acc2,
        ));
        assert(tail.subrange((a + w + 2) as int, tail.len() as int) =~= rest);
        lemma_seg_sub(s, pos, tail, a + w + 2, rest);
        lemma_lex_arr_elems(s, pos + a + w + 2, es, k + 1, ind, acc2);
        assert(pos + tail.len() == pos + a + w + 2 + rest.len());
        assert(acc + spec_arr_tokens(es, k) =~= acc2 + spec_arr_tokens(es, k + 1));
    } else {
        assert(pos + tail.len() == pos + a + w);
        assert(acc + spec_arr_tokens(es, k) =~= acc1);
    }
}

/// Rendering a printable value and scanning the text back yields exactly
/// the value's tokens.
pub proof fn lemma_tokenize_pretty(v: SpecValue, ind: nat)
    requires
        spec_printable(v),
    ensures
        spec_tokenize(spec_pretty(v, ind)) == Ok::<Seq<SpecToken>, SpecError>(spec_tokens_of(v)),
{
    let s = spec_pretty(v, ind);
    assert(s.subrange(0, s.len() as int) =~= s);
    lemma_lex_pretty(s, 0, v, ind, Seq::empty());
    assert(Seq::empty() + spec_tokens_of(v) =~= spec_tokens_of(v));
}

/// Round trip: rendering a value and reading the text back through the
/// lexer and the parser returns the value — `parse(tokenize(format(v)))`
/// succeeds and yields `v`, at any indent. It asks of `v` only what the
/// pipeline guarantees of every tree it produces: keys distinct within each
/// object, string contents free of `"` and `\`, numerals as scanned.
pub proof fn lemma_round_trip(v: SpecValue, ind: nat)
    requires
        spec_printable(v),
        spec_wf(v),
    ensures
        spec_tokenize(spec_pretty(v, ind)) matches Ok(toks) && spec_parse(toks) == Ok::<
            SpecValue,
            SpecError,
        >(v),
{
    lemma_tokenize_pretty(v, ind);
    let toks = spec_tokens_of(v);
    assert(toks.subrange(0, toks.len() as int) =~= toks);
    lemma_parse_tokens(toks, 0, v);
}

} // verus!

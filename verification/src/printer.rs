//! The pretty-printer: renders a value tree back to indented text. Objects
//! and arrays put one member per line, indented two columns deeper than
//! their opening marker, with commas between members and the closing marker
//! aligned with the opening construct; empty containers render closed with
//! no internal newline. The whole rendering is the function [`spec_pretty`].

use vstd::prelude::*;

use crate::parser::JsonValue;
use crate::parser::SpecValue;
use crate::parser::entries_view;
use crate::parser::elems_view;
use crate::parser::jv_view;
use crate::parser::lemma_elems_view;
use crate::parser::lemma_entries_view;

verus! {

/// `n` spaces.
pub open spec fn spec_spaces(n: nat) -> Seq<char> {
    Seq::new(n, |k: int| ' ')
}

/// How deep containers nest below `v`: a scalar is 0, a container one more
/// than its deepest member. Bounds the indent arithmetic of the printer.
pub open spec fn spec_depth(v: SpecValue) -> nat
    decreases v, 0nat,
{
    match v {
        SpecValue::Object(ms) => 1 + entries_depth(ms, 0),
        SpecValue::Array(es) => 1 + elems_depth(es, 0),
        _ => 0,
    }
}

/// The deepest nesting among the entries of `ms` from index `k` on.
pub open spec fn entries_depth(ms: Seq<(Seq<char>, SpecValue)>, k: nat) -> nat
    decreases ms, ms.len() - k,
{
    if k >= ms.len() {
        0
    } else {
        let a = spec_depth(ms[k as int].1);
        let b = entries_depth(ms, k + 1);
        if a > b {
            a
        } else {
            b
        }
    }
}

/// The deepest nesting among the elements of `es` from index `k` on.
pub open spec fn elems_depth(es: Seq<SpecValue>, k: nat) -> nat
    decreases es, es.len() - k,
{
    if k >= es.len() {
        0
    } else {
        let a = spec_depth(es[k as int]);
        let b = elems_depth(es, k + 1);
        if a > b {
            a
        } else {
            b
        }
    }
}

pub proof fn lemma_entries_depth(ms: Seq<(Seq<char>, SpecValue)>, k: nat)
    ensures
        forall|j: int|
            k <= j < ms.len() ==> spec_depth(#[trigger] ms[j].1) <= entries_depth(ms, k),
    decreases ms.len() - k,
{
    if k < ms.len() {
        lemma_entries_depth(ms, k + 1);
    }
}

pub proof fn lemma_elems_depth(es: Seq<SpecValue>, k: nat)
    ensures
        forall|j: int| k <= j < es.len() ==> spec_depth(#[trigger] es[j]) <= elems_depth(es, k),
    decreases es.len() - k,
{
    if k < es.len() {
        lemma_elems_depth(es, k + 1);
    }
}

/// The rendering of `v` at indent `ind`.
pub open spec fn spec_pretty(v: SpecValue, ind: nat) -> Seq<char>
    decreases v, 0nat,
{
    match v {
        SpecValue::Object(ms) => if ms.len() == 0 {
            "{"@ + "}"@
        } else {
            "{"@ + "\n"@ + spec_pretty_entries(ms, 0, ind) + "\n"@ + spec_spaces(ind) + "}"@
        },
        SpecValue::Array(es) => if es.len() == 0 {
            "["@ + "]"@
        } else {
            "["@ + "\n"@ + spec_pretty_elems(es, 0, ind) + "\n"@ + spec_spaces(ind) + "]"@
        },
        SpecValue::Str(s) => "\""@ + s + "\""@,
        SpecValue::Num(x) => x,
        SpecValue::Bool(b) => if b {
            "true"@
        } else {
            "false"@
        },
        SpecValue::Null => "null"@,
    }
}

/// The rendering of the entries of `ms` from index `k` on, each on its own
/// line at indent `ind + 2`, with `,` and a newline before every entry but
/// the first.
pub open spec fn spec_pretty_entries(ms: Seq<(Seq<char>, SpecValue)>, k: nat, ind: nat) -> Seq<
    char,
>
    decreases ms, ms.len() - k,
{
    if k >= ms.len() {
        Seq::empty()
    } else {
        let sep: Seq<char> = if k > 0 {
            ",\n"@
        } else {
            Seq::empty()
        };
        sep + spec_spaces(ind + 2) + "\""@ + ms[k as int].0 + "\": "@ + spec_pretty(
            ms[k as int].1,
            ind + 2,
        ) + spec_pretty_entries(ms, k + 1, ind)
    }
}

/// The rendering of the elements of `es` from index `k` on, each on its own
/// line at indent `ind + 2`, with `,` and a newline before every element
/// but the first.
pub open spec fn spec_pretty_elems(es: Seq<SpecValue>, k: nat, ind: nat) -> Seq<char>
    decreases es, es.len() - k,
{
    if k >= es.len() {
        Seq::empty()
    } else {
        let sep: Seq<char> = if k > 0 {
            ",\n"@
        } else {
            Seq::empty()
        };
        sep + spec_spaces(ind + 2) + spec_pretty(es[k as int], ind + 2) + spec_pretty_elems(
            es,
            k + 1,
            ind,
        )
    }
}

/// `n` spaces, as a string.
#[verifier::loop_isolation(false)]
fn spaces(n: usize) -> (r: String)
    ensures
        r@ == spec_spaces(n as nat),
{
    let mut s = String::new();
    assert(s@ =~= spec_spaces(0));
    let mut k: usize = 0;
    while k < n
        invariant
            k <= n,
            s@ == spec_spaces(k as nat),
        decreases n - k,
    {
        s.append(" ");
        proof {
            reveal_strlit(" ");
            assert(s@ =~= spec_spaces((k + 1) as nat));
        }
        k += 1;
    }
    s
}

impl JsonValue {
    /// Renders the tree as indented text, exactly as [`spec_pretty`] says;
    /// a pure traversal with no failure mode. The precondition only keeps
    /// the indent arithmetic inside the machine word.
    #[verifier::loop_isolation(false)]
    #[verifier::rlimit(50)]
    pub fn pretty_print(&self, indent: usize) -> (r: String)
        requires
            indent + 2 * spec_depth(jv_view(*self)) <= usize::MAX,
        ensures
            r@ == spec_pretty(jv_view(*self), indent as nat),
        decreases *self,
    {
        match self {
            JsonValue::Object(items) => {
                proof {
                    lemma_entries_view(items@);
                    lemma_entries_depth(entries_view(items@), 0);
                }
                let ghost ms = entries_view(items@);
                let mut out = String::from_str("{");
                if items.len() == 0 {
                    out.append("}");
                    return out;
                }
                out.append("\n");
                let n = items.len();
                let mut j: usize = 0;
                while j < n
                    invariant
                        j <= n,
                        spec_pretty(jv_view(*self), indent as nat) == out@
                            + spec_pretty_entries(ms, j as nat, indent as nat) + "\n"@
                            + spec_spaces(indent as nat) + "}"@,
                    decreases n - j,
                {
                    let ghost out0 = out@;
                    let ghost j0 = j as nat;
                    if j > 0 {
                        out.append(",\n");
                    }
                    let sp = spaces(indent + 2);
                    out.append(sp.as_str());
                    out.append("\"");
                    let entry = &items[j];
                    out.append(entry.0.as_str());
                    out.append("\": ");
                    proof {
                        assert(decreases_to!(*self => items@[j as int].1));
                    }
                    let sub = entry.1.pretty_print(indent + 2);
                    out.append(sub.as_str());
                    j += 1;
                    proof {
                        let sep: Seq<char> = if j0 > 0 {
                            ",\n"@
                        } else {
                            Seq::empty()
                        };
                        assert(out@ =~= out0 + sep + spec_spaces(indent as nat + 2) + "\""@
                            + entry.0@ + "\": "@ + sub@);
                        assert(ms[j0 as int].0 == entry.0@);
                        assert(sub@ == spec_pretty(ms[j0 as int].1, indent as nat + 2));
                        assert(spec_pretty_entries(ms, j0, indent as nat) == sep + spec_spaces(
                            indent as nat + 2,
                        ) + "\""@ + ms[j0 as int].0 + "\": "@ + spec_pretty(
                            ms[j0 as int].1,
                            indent as nat + 2,
                        ) + spec_pretty_entries(ms, j0 + 1, indent as nat));
                        assert(out@ + spec_pretty_entries(ms, j as nat, indent as nat) + "\n"@
                            + spec_spaces(indent as nat) + "}"@ =~= out0 + spec_pretty_entries(
                            ms,
                            j0,
                            indent as nat,
                        ) + "\n"@ + spec_spaces(indent as nat) + "}"@);
                    }
                }
                out.append("\n");
                let sp = spaces(indent);
                out.append(sp.as_str());
                out.append("}");
                assert(out@ =~= spec_pretty(jv_view(*self), indent as nat));
                out
            },
            JsonValue::Array(elems) => {
                proof {
                    lemma_elems_view(elems@);
                    lemma_elems_depth(elems_view(elems@), 0);
                }
                let ghost es = elems_view(elems@);
                let mut out = String::from_str("[");
                if elems.len() == 0 {
                    out.append("]");
                    return out;
                }
                out.append("\n");
                let n = elems.len();
                let mut j: usize = 0;
                while j < n
                    invariant
                        j <= n,
                        spec_pretty(jv_view(*self), indent as nat) == out@
                            + spec_pretty_elems(es, j as nat, indent as nat) + "\n"@
                            + spec_spaces(indent as nat) + "]"@,
                    decreases n - j,
                {
                    let ghost out0 = out@;
                    let ghost j0 = j as nat;
                    if j > 0 {
                        out.append(",\n");
                    }
                    let sp = spaces(indent + 2);
                    out.append(sp.as_str());
                    proof {
                        assert(decreases_to!(*self => elems@[j as int]));
                    }
                    let sub = elems[j].pretty_print(indent + 2);
                    out.append(sub.as_str());
                    j += 1;
                    proof {
                        let sep: Seq<char> = if j0 > 0 {
                            ",\n"@
                        } else {
                            Seq::empty()
                        };
                        assert(out@ =~= out0 + sep + spec_spaces(indent as nat + 2) + sub@);
                        assert(sub@ == spec_pretty(es[j0 as int], indent as nat + 2));
                        assert(spec_pretty_elems(es, j0, indent as nat) == sep + spec_spaces(
                            indent as nat + 2,
                        ) + spec_pretty(es[j0 as int], indent as nat + 2) + spec_pretty_elems(
                            es,
                            j0 + 1,
                            indent as nat,
                        ));
                        assert(out@ + spec_pretty_elems(es, j as nat, indent as nat) + "\n"@
                            + spec_spaces(indent as nat) + "]"@ =~= out0 + spec_pretty_elems(
                            es,
                            j0,
                            indent as nat,
                        ) + "\n"@ + spec_spaces(indent as nat) + "]"@);
                    }
                }
                out.append("\n");
                let sp = spaces(indent);
                out.append(sp.as_str());
                out.append("]");
                assert(out@ =~= spec_pretty(jv_view(*self), indent as nat));
                out
            },
            JsonValue::String(s) => {
                let mut out = String::from_str("\"");
                out.append(s.as_str());
                out.append("\"");
                out
            },
            JsonValue::Number(x) => x.clone(),
            JsonValue::Bool(b) => {
                if *b {
                    String::from_str("true")
                } else {
                    String::from_str("false")
                }
            },
            JsonValue::Null => String::from_str("null"),
        }
    }
}

} // verus!

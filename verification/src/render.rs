//! The recursive tree renderer: dispatches on value kind, wraps entries in
//! tags named after their normalized keys, and threads the layout
//! configuration (indent, key prefix, strict mode) through the recursion.

use vstd::prelude::*;
use crate::chars::dec_str;
use crate::kebab::kebab_spec;
use crate::text::norm_string;
use crate::value::Value;

verus! {

/// The full key of an entry: the accumulated prefix, a hyphen, and the
/// entry's own key; or the key alone where no prefix has accumulated.
pub open spec fn spec_full_key(prefix: Seq<char>, key: Seq<char>) -> Seq<char> {
    if prefix.len() == 0 {
        key
    } else {
        prefix + "-"@ + key
    }
}

/// The markup for a whole value.
///
/// Primitives render as bare text: `null`, `true`/`false`, a number's
/// canonical text, or a normalized string. An array renders as if it were
/// the value of an entry keyed by `prefix`, or as nothing when there is no
/// prefix to name it. An object renders its entries in order, joined by
/// newlines, or as nothing when it is empty.
pub open spec fn spec_render(v: Value, indent: Seq<char>, prefix: Seq<char>, strict: bool) -> Seq<
    char,
>
    decreases v, (if v is Array { 1int } else { 0int }), 0int,
{
    match v {
        Value::Null => "null"@,
        Value::Bool(b) => if b {
            "true"@
        } else {
            "false"@
        },
        Value::Number(n) => n@,
        Value::String(s) => norm_string(s@),
        Value::Array(arr) => if prefix.len() == 0 {
            Seq::<char>::empty()
        } else {
            spec_entry(prefix, v, indent, Seq::<char>::empty(), strict)
        },
        Value::Object(entries) => if entries@.len() == 0 {
            Seq::<char>::empty()
        } else {
            spec_entries(entries@, 0, indent, prefix, strict)
        },
    }
}

/// The markup for the object entries from index `i` on, joined by newlines.
pub open spec fn spec_entries(
    entries: Seq<(String, Value)>,
    i: int,
    indent: Seq<char>,
    prefix: Seq<char>,
    strict: bool,
) -> Seq<char>
    decreases entries, 0int, entries.len() - i,
{
    if i < 0 || i >= entries.len() {
        Seq::<char>::empty()
    } else {
        let part = spec_entry(entries[i].0@, entries[i].1, indent, prefix, strict);
        if i + 1 < entries.len() {
            part + "\n"@ + spec_entries(entries, i + 1, indent, prefix, strict)
        } else {
            part
        }
    }
}

/// The markup for one object entry.
///
/// The tag is the normalized full key. An empty array contributes nothing.
/// A non-empty array becomes a wrapper tag holding one numbered item tag per
/// element. A non-empty object becomes a block: opening tag, its entries
/// indented one level deeper, closing tag. A primitive is wrapped inline on
/// one line, or as a block when its text spans several lines.
pub open spec fn spec_entry(
    key: Seq<char>,
    v: Value,
    indent: Seq<char>,
    prefix: Seq<char>,
    strict: bool,
) -> Seq<char>
    decreases v, 0int, 1int,
{
    let full = spec_full_key(prefix, key);
    let tag = kebab_spec(full);
    match v {
        Value::Array(arr) => if arr@.len() == 0 {
            Seq::<char>::empty()
        } else {
            indent + "<"@ + tag + ">"@ + "\n"@ + spec_items(arr@, 0, indent + "  "@, tag, strict)
                + "\n"@ + indent + "</"@ + tag + ">"@
        },
        Value::Object(entries) => {
            let body = spec_render(
                v,
                indent + "  "@,
                if strict {
                    full
                } else {
                    Seq::<char>::empty()
                },
                strict,
            );
            if body.len() == 0 {
                indent + "<"@ + tag + ">"@ + "</"@ + tag + ">"@
            } else {
                indent + "<"@ + tag + ">"@ + "\n"@ + body + "\n"@ + indent + "</"@ + tag + ">"@
            }
        },
        _ => {
            let body = spec_render(v, Seq::<char>::empty(), Seq::<char>::empty(), false);
            if body.contains('\n') {
                indent + "<"@ + tag + ">"@ + "\n"@ + body + "\n"@ + indent + "</"@ + tag + ">"@
            } else {
                indent + "<"@ + tag + ">"@ + body + "</"@ + tag + ">"@
            }
        },
    }
}

/// The markup for the single array item at index `i`. The item tag is the
/// wrapper tag plus the item's 1-based position; an object item becomes a
/// block whose own entries see the item tag as prefix in strict mode, any
/// other item is rendered bare and wrapped inline.
pub open spec fn spec_item(
    items: Seq<Value>,
    i: int,
    indent: Seq<char>,
    tag: Seq<char>,
    strict: bool,
) -> Seq<char>
    decreases items, 0int, 0int,
{
    if i < 0 || i >= items.len() {
        Seq::<char>::empty()
    } else {
        let item_tag = tag + "-"@ + dec_str(i + 1);
        match items[i] {
            Value::Object(_) => {
                let body = spec_render(
                    items[i],
                    indent + "  "@,
                    if strict {
                        item_tag
                    } else {
                        Seq::<char>::empty()
                    },
                    strict,
                );
                indent + "<"@ + item_tag + ">"@ + "\n"@ + body + "\n"@ + indent + "</"@ + item_tag
                    + ">"@
            },
            _ => {
                let body = spec_render(
                    items[i],
                    Seq::<char>::empty(),
                    Seq::<char>::empty(),
                    false,
                );
                indent + "<"@ + item_tag + ">"@ + body + "</"@ + item_tag + ">"@
            },
        }
    }
}

/// The markup for the array items from index `i` on, joined by newlines.
pub open spec fn spec_items(
    items: Seq<Value>,
    i: int,
    indent: Seq<char>,
    tag: Seq<char>,
    strict: bool,
) -> Seq<char>
    decreases items, 0int, items.len() - i + 1,
{
    if i < 0 || i >= items.len() {
        Seq::<char>::empty()
    } else {
        let part = spec_item(items, i, indent, tag, strict);
        if i + 1 < items.len() {
            part + "\n"@ + spec_items(items, i + 1, indent, tag, strict)
        } else {
            part
        }
    }
}

/// Options controlling a render call.
#[derive(Debug, Clone)]
pub struct LLMLOptions {
    /// Text prepended once per nesting level in front of every emitted line.
    pub indent: String,
    /// The key prefix already accumulated above the value being rendered.
    pub prefix: String,
    /// In strict mode nested tags repeat every ancestor key segment; in
    /// non-strict mode each nesting level's tags are locally scoped.
    pub strict: bool,
}

impl Default for LLMLOptions {
    /// No indent, no prefix, non-strict.
    fn default() -> (r: Self)
        ensures
            r.indent@ == Seq::<char>::empty(),
            r.prefix@ == Seq::<char>::empty(),
            !r.strict,
    {
        LLMLOptions { indent: String::new(), prefix: String::new(), strict: false }
    }
}

/// The markup for `v` rendered with `options`, or with the default options
/// where none are given.
pub open spec fn spec_render_opts(v: Value, options: Option<LLMLOptions>) -> Seq<char> {
    match options {
        Some(o) => spec_render(v, o.indent@, o.prefix@, o.strict),
        None => spec_render(v, Seq::<char>::empty(), Seq::<char>::empty(), false),
    }
}

/// Renders a whole value with the given options.
pub fn format_value(data: &Value, opts: &LLMLOptions) -> (r: String)
    ensures
        r@ == spec_render(*data, opts.indent@, opts.prefix@, opts.strict),
    decreases *data, (if *data is Array {
        3int
    } else {
        1int
    }),
{
    match data {
        Value::Null => String::from_str("null"),
        Value::Bool(b) => {
            if *b {
                String::from_str("true")
            } else {
                String::from_str("false")
            }
        },
        Value::Number(n) => n.clone(),
        Value::String(s) => crate::text::format_string_content(s.as_str()),
        Value::Array(_) => {
            if opts.prefix.as_str().is_empty() {
                String::new()
            } else {
                proof {
                    reveal_strlit("");
                    assert(""@ =~= Seq::<char>::empty());
                }
                format_entry(opts.prefix.as_str(), data, opts.indent.as_str(), "", opts.strict)
            }
        },
        Value::Object(entries) => {
            proof {
                assert(*data == Value::Object(*entries));
            }
            format_object(entries, opts)
        },
    }
}

/// Renders the entries of an object, in insertion order, joined by
/// newlines; an object with no entries renders as the empty string.
pub fn format_object(entries: &Vec<(String, Value)>, opts: &LLMLOptions) -> (r: String)
    ensures
        r@ == spec_render(Value::Object(*entries), opts.indent@, opts.prefix@, opts.strict),
    decreases Value::Object(*entries), 0int,
{
    let ghost e = entries@;
    let ghost ind = opts.indent@;
    let ghost pre = opts.prefix@;
    let n = entries.len();
    let mut out = String::new();
    let mut k: usize = 0;
    while k < n
        invariant
            k <= n,
            n == e.len(),
            e == entries@,
            ind == opts.indent@,
            pre == opts.prefix@,
            k == 0 ==> out@ == Seq::<char>::empty(),
            0 < k < n ==> spec_entries(e, 0, ind, pre, opts.strict) == out@ + "\n"@
                + spec_entries(e, k as int, ind, pre, opts.strict),
            k == n && n > 0 ==> out@ == spec_entries(e, 0, ind, pre, opts.strict),
        decreases n - k,
    {
        let ghost out0 = out@;
        if k > 0 {
            out.append("\n");
        }
        proof {
            let ghost whole = Value::Object(*entries);
            assert(decreases_to!(whole => whole->Object_0));
            assert(whole->Object_0 == *entries);
            assert(decreases_to!(*entries => entries@));
            assert(decreases_to!(e => e[k as int]));
            assert(decreases_to!(e[k as int] => e[k as int].1));
        }
        let pair = &entries[k];
        let part = format_entry(
            pair.0.as_str(),
            &pair.1,
            opts.indent.as_str(),
            opts.prefix.as_str(),
            opts.strict,
        );
        out.append(part.as_str());
        proof {
            let ki = k as int;
            assert(part@ == spec_entry(e[ki].0@, e[ki].1, ind, pre, opts.strict));
            if k == 0 {
                assert(out@ =~= part@);
                if 1 < n {
                    assert(spec_entries(e, 0, ind, pre, opts.strict) =~= out@ + "\n"@
                        + spec_entries(e, 1, ind, pre, opts.strict));
                } else {
                    assert(spec_entries(e, 0, ind, pre, opts.strict) =~= out@);
                }
            } else {
                assert(out@ =~= out0 + "\n"@ + part@);
                assert(spec_entries(e, ki, ind, pre, opts.strict) == part@ + if ki + 1 < e.len() {
                    "\n"@ + spec_entries(e, ki + 1, ind, pre, opts.strict)
                } else {
                    Seq::<char>::empty()
                });
                if k + 1 < n {
                    assert(spec_entries(e, 0, ind, pre, opts.strict) =~= out@ + "\n"@
                        + spec_entries(e, ki + 1, ind, pre, opts.strict));
                } else {
                    assert(spec_entries(e, 0, ind, pre, opts.strict) =~= out@);
                }
            }
        }
        k = k + 1;
    }
    out
}

/// Renders one object entry: the value wrapped in a tag named by the
/// normalized full key.
fn format_entry(key: &str, value: &Value, indent: &str, prefix: &str, strict: bool) -> (r: String)
    ensures
        r@ == spec_entry(key@, *value, indent@, prefix@, strict),
    decreases *value, 2int,
{
    let mut full = String::new();
    if !prefix.is_empty() {
        full.append(prefix);
        full.append("-");
    }
    full.append(key);
    proof {
        assert(full@ =~= spec_full_key(prefix@, key@));
    }
    let tag = crate::kebab::to_kebab_case(full.as_str());

    match value {
        Value::Array(arr) => {
            let lopts = LLMLOptions { indent: String::from_str(indent), prefix: String::new(), strict };
            proof {
                assert(*value == Value::Array(*arr));
            }
            let r = format_list(arr, &lopts, full.as_str());
            proof {
                assert(spec_full_key(Seq::<char>::empty(), full@) == full@);
                assert(r@ == spec_entry(key@, *value, indent@, prefix@, strict));
            }
            r
        },
        Value::Object(_) => {
            let mut nested_indent = String::from_str(indent);
            nested_indent.append("  ");
            let nested_prefix = if strict {
                full.clone()
            } else {
                String::new()
            };
            let nested = LLMLOptions { indent: nested_indent, prefix: nested_prefix, strict };
            let body = format_value(value, &nested);
            let mut out = String::new();
            out.append(indent);
            out.append("<");
            out.append(tag.as_str());
            out.append(">");
            if body.as_str().is_empty() {
                out.append("</");
                out.append(tag.as_str());
                out.append(">");
            } else {
                out.append("\n");
                out.append(body.as_str());
                out.append("\n");
                out.append(indent);
                out.append("</");
                out.append(tag.as_str());
                out.append(">");
            }
            proof {
                assert(out@ =~= spec_entry(key@, *value, indent@, prefix@, strict));
            }
            out
        },
        _ => {
            let dflt = LLMLOptions::default();
            let body = format_value(value, &dflt);
            let bv = crate::chars::str_to_chars(body.as_str());
            proof {
                assert(bv@.subrange(0, bv@.len() as int) =~= bv@);
            }
            let mut out = String::new();
            out.append(indent);
            out.append("<");
            out.append(tag.as_str());
            out.append(">");
            if crate::text::has_newline(&bv, 0, bv.len()) {
                out.append("\n");
                out.append(body.as_str());
                out.append("\n");
                out.append(indent);
                out.append("</");
                out.append(tag.as_str());
                out.append(">");
            } else {
                out.append(body.as_str());
                out.append("</");
                out.append(tag.as_str());
                out.append(">");
            }
            proof {
                assert(out@ =~= spec_entry(key@, *value, indent@, prefix@, strict));
            }
            out
        },
    }
}

/// Renders an array as a wrapper tag named by the normalized `prefix`,
/// holding one numbered item tag per element; an empty array renders as the
/// empty string. The wrapper's lines start at the options' indent, its items
/// one level deeper.
pub fn format_list(arr: &Vec<Value>, opts: &LLMLOptions, prefix: &str) -> (r: String)
    ensures
        r@ == spec_entry(
            prefix@,
            Value::Array(*arr),
            opts.indent@,
            Seq::<char>::empty(),
            opts.strict,
        ),
    decreases Value::Array(*arr), 0int,
{
    let ghost strict = opts.strict;
    let indent = opts.indent.as_str();
    let tag = crate::kebab::to_kebab_case(prefix);
    proof {
        assert(spec_full_key(Seq::<char>::empty(), prefix@) == prefix@);
    }
    if arr.len() == 0 {
        String::new()
    } else {
        let ghost items = arr@;
        let ghost tagv = tag@;
        let mut inner_indent = String::from_str(indent);
        inner_indent.append("  ");
        let ghost ind2 = indent@ + "  "@;
        let mut out = String::new();
        out.append(indent);
        out.append("<");
        out.append(tag.as_str());
        out.append(">");
        out.append("\n");
        let ghost header = indent@ + "<"@ + tagv + ">"@ + "\n"@;
        proof {
            assert(out@ =~= header);
        }
        let n = arr.len();
        let mut i: usize = 0;
        while i < n
            invariant
                i <= n,
                n == items.len(),
                items == arr@,
                strict == opts.strict,
                inner_indent@ == ind2,
                tagv == tag@,
                i == 0 ==> out@ == header,
                0 < i < n ==> header + spec_items(items, 0, ind2, tagv, strict) == out@ + "\n"@
                    + spec_items(items, i as int, ind2, tagv, strict),
                i == n ==> out@ == header + spec_items(items, 0, ind2, tagv, strict),
            decreases n - i,
        {
            let ghost out0 = out@;
            if i > 0 {
                out.append("\n");
            }
            proof {
                let ghost whole = Value::Array(*arr);
                assert(decreases_to!(whole => whole->Array_0));
                assert(whole->Array_0 == *arr);
                assert(decreases_to!(*arr => arr@));
            }
            let part = format_item(arr, i, inner_indent.as_str(), tag.as_str(), opts.strict);
            out.append(part.as_str());
            proof {
                let ii = i as int;
                assert(spec_items(items, ii, ind2, tagv, strict) == spec_item(
                    items,
                    ii,
                    ind2,
                    tagv,
                    strict,
                ) + if ii + 1 < items.len() {
                    "\n"@ + spec_items(items, ii + 1, ind2, tagv, strict)
                } else {
                    Seq::<char>::empty()
                });
                if i == 0 {
                    assert(out@ =~= header + part@);
                    if 1 < n {
                        assert(header + spec_items(items, 0, ind2, tagv, strict) =~= out@ + "\n"@
                            + spec_items(items, 1, ind2, tagv, strict));
                    } else {
                        assert(out@ =~= header + spec_items(items, 0, ind2, tagv, strict));
                    }
                } else {
                    assert(out@ =~= out0 + "\n"@ + part@);
                    if i + 1 < n {
                        assert(header + spec_items(items, 0, ind2, tagv, strict) =~= out@ + "\n"@
                            + spec_items(items, ii + 1, ind2, tagv, strict));
                    } else {
                        assert(out@ =~= header + spec_items(items, 0, ind2, tagv, strict));
                    }
                }
            }
            i = i + 1;
        }
        out.append("\n");
        out.append(indent);
        out.append("</");
        out.append(tag.as_str());
        out.append(">");
        proof {
            assert(out@ =~= spec_entry(
                prefix@,
                Value::Array(*arr),
                opts.indent@,
                Seq::<char>::empty(),
                opts.strict,
            ));
        }
        out
    }
}

/// Renders the single array item at index `i`, wrapped in its numbered
/// item tag.
fn format_item(items: &Vec<Value>, i: usize, indent: &str, tag: &str, strict: bool) -> (r: String)
    requires
        i < items@.len(),
    ensures
        r@ == spec_item(items@, i as int, indent@, tag@, strict),
    decreases items@, 0int,
{
    let _n = items.len();
    let mut item_tag = String::from_str(tag);
    item_tag.append("-");
    crate::chars::push_dec(&mut item_tag, i + 1);
    proof {
        assert(item_tag@ =~= tag@ + "-"@ + crate::chars::dec_str(i + 1));
        assert(decreases_to!(items@ => items@[i as int]));
    }
    let item = &items[i];
    let ghost part = spec_item(items@, i as int, indent@, tag@, strict);
    let mut out = String::new();
    out.append(indent);
    out.append("<");
    out.append(item_tag.as_str());
    out.append(">");
    match item {
        Value::Object(_) => {
            out.append("\n");
            let mut item_indent = String::from_str(indent);
            item_indent.append("  ");
            let nested_prefix = if strict {
                item_tag.clone()
            } else {
                String::new()
            };
            let nested = LLMLOptions { indent: item_indent, prefix: nested_prefix, strict };
            let body = format_value(item, &nested);
            out.append(body.as_str());
            out.append("\n");
            out.append(indent);
            out.append("</");
            out.append(item_tag.as_str());
            out.append(">");
            proof {
                assert(part =~= indent@ + "<"@ + item_tag@ + ">"@ + "\n"@ + body@ + "\n"@ + indent@
                    + "</"@ + item_tag@ + ">"@);
                assert(out@ =~= part);
            }
        },
        _ => {
            let dflt = LLMLOptions::default();
            let body = format_value(item, &dflt);
            out.append(body.as_str());
            out.append("</");
            out.append(item_tag.as_str());
            out.append(">");
            proof {
                assert(part =~= indent@ + "<"@ + item_tag@ + ">"@ + body@ + "</"@ + item_tag@
                    + ">"@);
                assert(out@ =~= part);
            }
        },
    }
    out
}

/// Renders a value with the default options: no indent, no prefix,
/// non-strict mode.
pub fn llml(data: &Value) -> (r: String)
    ensures
        r@ == spec_render(*data, Seq::<char>::empty(), Seq::<char>::empty(), false),
{
    let opts = LLMLOptions::default();
    format_value(data, &opts)
}

/// Renders a value with explicit options; `None` renders with the defaults.
pub fn llml_with_options(data: &Value, options: Option<LLMLOptions>) -> (r: String)
    ensures
        r@ == spec_render_opts(*data, options),
{
    match options {
        Some(o) => format_value(data, &o),
        None => llml(data),
    }
}

/// Rendering is deterministic: any two renders of the same tree with the
/// same options are byte-identical.
pub proof fn lemma_render_deterministic(
    r1: Seq<char>,
    r2: Seq<char>,
    v: Value,
    indent: Seq<char>,
    prefix: Seq<char>,
    strict: bool,
)
    requires
        r1 == spec_render(v, indent, prefix, strict),
        r2 == spec_render(v, indent, prefix, strict),
    ensures
        r1 == r2,
{
}

} // verus!

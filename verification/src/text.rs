//! String value normalization: trimming and multiline dedenting.

use vstd::prelude::*;

verus! {

/// A Unicode whitespace character (the set that trimming removes).
pub open spec fn is_wsp(c: char) -> bool {
    ||| c == ' '
    ||| c == '\t'
    ||| c == '\n'
    ||| c == '\r'
    ||| c == '\u{b}'
    ||| c == '\u{c}'
    ||| c == '\u{85}'
    ||| c == '\u{a0}'
    ||| c == '\u{1680}'
    ||| ('\u{2000}' as int <= c as int && c as int <= '\u{200a}' as int)
    ||| c == '\u{2028}'
    ||| c == '\u{2029}'
    ||| c == '\u{202f}'
    ||| c == '\u{205f}'
    ||| c == '\u{3000}'
}

/// `s` without its trailing whitespace.
pub open spec fn trim_end(s: Seq<char>) -> Seq<char>
    decreases s.len(),
{
    if s.len() > 0 && is_wsp(s.last()) {
        trim_end(s.drop_last())
    } else {
        s
    }
}

/// `s` without its leading whitespace.
pub open spec fn trim_start(s: Seq<char>) -> Seq<char>
    decreases s.len(),
{
    if s.len() > 0 && is_wsp(s[0]) {
        trim_start(s.drop_first())
    } else {
        s
    }
}

/// `s` without leading and trailing whitespace.
pub open spec fn trim(s: Seq<char>) -> Seq<char> {
    trim_start(trim_end(s))
}

/// Position of the first newline in `s`, or `s.len()` if there is none.
pub open spec fn find_nl(s: Seq<char>) -> nat
    decreases s.len(),
{
    if s.len() == 0 {
        0
    } else if s[0] == '\n' {
        0
    } else {
        1 + find_nl(s.drop_first())
    }
}

proof fn lemma_find_nl_le(s: Seq<char>)
    ensures
        find_nl(s) <= s.len(),
    decreases s.len(),
{
    if s.len() > 0 && s[0] != '\n' {
        lemma_find_nl_le(s.drop_first());
    }
}

/// Each line of `s`, individually trimmed and prefixed with two spaces,
/// joined by newlines.
pub open spec fn dedent_lines(s: Seq<char>) -> Seq<char>
    decreases s.len(),
{
    let i = find_nl(s) as int;
    if i >= s.len() {
        "  "@ + trim(s)
    } else {
        "  "@ + trim(s.take(i)) + "\n"@ + dedent_lines(s.skip(i + 1))
    }
}

/// The rendered form of a string value: trimmed of leading and trailing
/// whitespace; if the trimmed text still spans several lines, every line is
/// trimmed and re-indented with a two-space marker.
pub open spec fn norm_string(s: Seq<char>) -> Seq<char> {
    let t = trim(s);
    if t.contains('\n') {
        dedent_lines(t)
    } else {
        t
    }
}

/// Whether `c` is a whitespace character.
fn ch_is_wsp(c: char) -> (b: bool)
    ensures
        b == is_wsp(c),
{
    let u = c as u32;
    u == 0x20 || (0x9 <= u && u <= 0xd) || u == 0x85 || u == 0xa0 || u == 0x1680 || (0x2000 <= u
        && u <= 0x200a) || u == 0x2028 || u == 0x2029 || u == 0x202f || u == 0x205f || u == 0x3000
}

/// The bounds of `v[from..to]` once whitespace is trimmed from both ends.
fn trim_bounds(v: &Vec<char>, from: usize, to: usize) -> (r: (usize, usize))
    requires
        from <= to <= v@.len(),
    ensures
        from <= r.0 <= r.1 <= to,
        v@.subrange(r.0 as int, r.1 as int) == trim(v@.subrange(from as int, to as int)),
{
    let mut end: usize = to;
    while end > from && ch_is_wsp(v[end - 1])
        invariant
            from <= end <= to <= v@.len(),
            trim_end(v@.subrange(from as int, to as int)) == trim_end(
                v@.subrange(from as int, end as int),
            ),
        decreases end,
    {
        proof {
            assert(v@.subrange(from as int, end as int).drop_last() =~= v@.subrange(
                from as int,
                end - 1,
            ));
        }
        end = end - 1;
    }
    proof {
        assert(trim_end(v@.subrange(from as int, to as int)) == v@.subrange(
            from as int,
            end as int,
        ));
    }
    let mut start: usize = from;
    while start < end && ch_is_wsp(v[start])
        invariant
            from <= start <= end <= v@.len(),
            trim_end(v@.subrange(from as int, to as int)) == v@.subrange(from as int, end as int),
            trim_start(v@.subrange(from as int, end as int)) == trim_start(
                v@.subrange(start as int, end as int),
            ),
        decreases end - start,
    {
        proof {
            assert(v@.subrange(start as int, end as int).drop_first() =~= v@.subrange(
                start + 1,
                end as int,
            ));
        }
        start = start + 1;
    }
    (start, end)
}

/// Whether `v[from..to]` holds a newline character.
pub(crate) fn has_newline(v: &Vec<char>, from: usize, to: usize) -> (b: bool)
    requires
        from <= to <= v@.len(),
    ensures
        b == v@.subrange(from as int, to as int).contains('\n'),
{
    let mut i: usize = from;
    while i < to
        invariant
            from <= i <= to <= v@.len(),
            forall|k: int| from <= k < i ==> v@[k] != '\n',
        decreases to - i,
    {
        if v[i] == '\n' {
            proof {
                assert(v@.subrange(from as int, to as int)[i - from] == '\n');
            }
            return true;
        }
        i = i + 1;
    }
    proof {
        let s = v@.subrange(from as int, to as int);
        assert forall|k: int| 0 <= k < s.len() implies s[k] != '\n' by {
            assert(s[k] == v@[from + k]);
        }
    }
    false
}

/// Appends `v[from..to]`, trimmed of whitespace at both ends.
fn push_trimmed(out: &mut String, v: &Vec<char>, from: usize, to: usize)
    requires
        from <= to <= v@.len(),
    ensures
        final(out)@ == old(out)@ + trim(v@.subrange(from as int, to as int)),
{
    let (lo, hi) = trim_bounds(v, from, to);
    crate::chars::push_chars_range(out, v, lo, hi);
}

/// Appends the dedented form of `v[pos..hi]`: each of its lines trimmed,
/// prefixed with two spaces, and joined by newlines.
fn push_dedent(out: &mut String, v: &Vec<char>, pos: usize, hi: usize)
    requires
        pos <= hi <= v@.len(),
    ensures
        final(out)@ == old(out)@ + dedent_lines(v@.subrange(pos as int, hi as int)),
    decreases hi - pos,
{
    let ghost s = v@.subrange(pos as int, hi as int);
    let mut i: usize = pos;
    while i < hi && v[i] != '\n'
        invariant
            pos <= i <= hi <= v@.len(),
            s == v@.subrange(pos as int, hi as int),
            find_nl(s) == i - pos + find_nl(v@.subrange(i as int, hi as int)),
        decreases hi - i,
    {
        proof {
            let rest = v@.subrange(i as int, hi as int);
            assert(rest[0] == v@[i as int]);
            assert(rest.drop_first() =~= v@.subrange(i + 1, hi as int));
        }
        i = i + 1;
    }
    proof {
        let rest = v@.subrange(i as int, hi as int);
        if i < hi {
            assert(rest[0] == '\n');
            assert(find_nl(s) == i - pos);
        } else {
            assert(rest.len() == 0);
            assert(find_nl(s) == hi - pos);
            lemma_find_nl_le(s);
        }
    }
    out.append("  ");
    push_trimmed(out, v, pos, i);
    if i < hi {
        out.append("\n");
        push_dedent(out, v, i + 1, hi);
        proof {
            assert(s.take(i - pos) =~= v@.subrange(pos as int, i as int));
            assert(s.skip(i - pos + 1) =~= v@.subrange(i + 1, hi as int));
            assert(out@ =~= old(out)@ + dedent_lines(s));
        }
    } else {
        proof {
            assert(s =~= v@.subrange(pos as int, i as int));
            assert(out@ =~= old(out)@ + dedent_lines(s));
        }
    }
}

/// Normalizes a string value: trims surrounding whitespace; if the trimmed
/// text spans several lines, each line is trimmed and re-indented with a
/// two-space marker, and the lines are joined by newlines.
pub fn format_string_content(s: &str) -> (r: String)
    ensures
        r@ == norm_string(s@),
{
    let v = crate::chars::str_to_chars(s);
    proof {
        assert(v@.subrange(0, v@.len() as int) =~= v@);
    }
    let (lo, hi) = trim_bounds(&v, 0, v.len());
    let mut out = String::new();
    if has_newline(&v, lo, hi) {
        push_dedent(&mut out, &v, lo, hi);
    } else {
        crate::chars::push_chars_range(&mut out, &v, lo, hi);
    }
    proof {
        assert(out@ =~= norm_string(s@));
    }
    out
}

/// Normalizes a string value; the second argument is kept for callers of the
/// historical signature and has no effect on the result.
pub fn format_string(s: &str, _indent: &str) -> (r: String)
    ensures
        r@ == norm_string(s@),
{
    format_string_content(s)
}

} // verus!

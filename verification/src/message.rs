//! Rendering an event's message as the documentation of its generated method.

use vstd::prelude::*;

use crate::numbers::{digits_number, parse_digits};
use crate::text::{chars_of, push_char, push_str};

verus! {

/// Whether a character has a meaning in Markdown inline formatting and is escaped.
pub open spec fn is_markdown_special(c: char) -> bool {
    c == '\\' || c == '`' || c == '*' || c == '_' || c == '[' || c == ']' || c == '<' || c == '~'
}

/// A character as rendered into Markdown: escaped with a backslash if it is special.
pub open spec fn escaped(c: char) -> Seq<char> {
    if is_markdown_special(c) { seq!['\\', c] } else { seq![c] }
}

/// Text as rendered into Markdown, every special character escaped.
pub open spec fn escaped_text(s: Seq<char>) -> Seq<char>
    decreases s.len(),
{
    if s.len() == 0 {
        seq![]
    } else {
        escaped_text(s.drop_last()) + escaped(s.last())
    }
}

/// Appends `ch` to `out`, escaping Markdown control characters.
pub fn push_escaped_markdown(out: &mut String, ch: char)
    ensures
        final(out)@ == old(out)@ + escaped(ch),
{
    if ch == '\\' || ch == '`' || ch == '*' || ch == '_' || ch == '[' || ch == ']' || ch == '<'
        || ch == '~' {
        push_char(out, '\\');
    }
    push_char(out, ch);
}

/// Whether a character is an ASCII decimal digit.
pub open spec fn is_ascii_digit(c: char) -> bool {
    '0' <= c <= '9'
}

/// The end of the run of ASCII digits that starts at `j`.
pub open spec fn digit_run_end(cs: Seq<char>, j: int) -> int
    decreases cs.len() - j,
{
    if 0 <= j < cs.len() && is_ascii_digit(cs[j]) {
        digit_run_end(cs, j + 1)
    } else {
        j
    }
}

/// The position of the first `!` at or after `k`.
pub open spec fn find_bang(cs: Seq<char>, k: int) -> Option<int>
    decreases cs.len() - k,
{
    if k < 0 || k >= cs.len() {
        None
    } else if cs[k] == '!' {
        Some(k)
    } else {
        find_bang(cs, k + 1)
    }
}

/// The end of a placeholder whose digits end at `j`: past an `!...!` format specifier that
/// immediately follows the digits, else `j`.
pub open spec fn placeholder_end(cs: Seq<char>, j: int) -> int {
    if 0 <= j < cs.len() && cs[j] == '!' {
        match find_bang(cs, j + 1) {
            Some(b) => b + 1,
            None => j,
        }
    } else {
        j
    }
}

/// The field a placeholder's digits name: `%N` is field `N`, counting from 1.
pub open spec fn placeholder_ref(digits: Seq<char>, refs: Seq<Seq<char>>) -> Option<Seq<char>> {
    let n = digits_number(digits, 10);
    if n <= usize::MAX && 1 <= n <= refs.len() {
        Some(refs[n - 1])
    } else {
        None
    }
}

pub proof fn lemma_digit_run_end(cs: Seq<char>, j: int)
    requires
        0 <= j,
    ensures
        j <= digit_run_end(cs, j),
        digit_run_end(cs, j) <= cs.len() || digit_run_end(cs, j) == j,
        forall|k: int| j <= k < digit_run_end(cs, j) ==> is_ascii_digit(#[trigger] cs[k]),
        digit_run_end(cs, j) < cs.len() && digit_run_end(cs, j) >= j ==> !is_ascii_digit(cs[digit_run_end(cs, j)]),
    decreases cs.len() - j,
{
    if 0 <= j < cs.len() && is_ascii_digit(cs[j]) {
        lemma_digit_run_end(cs, j + 1);
    }
}

pub proof fn lemma_find_bang(cs: Seq<char>, k: int)
    requires
        0 <= k,
    ensures
        find_bang(cs, k) matches Some(b) ==> k <= b < cs.len() && cs[b] == '!' && forall|m: int| k <= m < b ==> cs[m] != '!',
        find_bang(cs, k) is None ==> forall|m: int| k <= m < cs.len() ==> cs[m] != '!',
    decreases cs.len() - k,
{
    if 0 <= k < cs.len() && cs[k] != '!' {
        lemma_find_bang(cs, k + 1);
    }
}

/// The Markdown rendering of an ETW message from position `i` on: `%%` is a percent sign,
/// `%N` (with an optional `!...!` format specifier) is `{` and the name of field `N` and `}`,
/// a placeholder naming no field stays as escaped text, a lone `%` stays, and every other
/// character is escaped.
pub open spec fn render_from(cs: Seq<char>, i: int, refs: Seq<Seq<char>>) -> Seq<char>
    decreases cs.len() - i,
{
    if i < 0 || i >= cs.len() {
        seq![]
    } else if cs[i] != '%' {
        escaped(cs[i]) + render_from(cs, i + 1, refs)
    } else if i + 1 < cs.len() && cs[i + 1] == '%' {
        escaped('%') + render_from(cs, i + 2, refs)
    } else {
        let j = digit_run_end(cs, i + 1);
        proof {
            lemma_digit_run_end(cs, i + 1);
        }
        if j == i + 1 {
            escaped('%') + render_from(cs, i + 1, refs)
        } else {
            let end = placeholder_end(cs, j);
            proof {
                lemma_find_bang(cs, j + 1);
            }
            let head = match placeholder_ref(cs.subrange(i + 1, j), refs) {
                Some(r) => seq!['{'] + r + seq!['}'],
                None => escaped_text(cs.subrange(i, end)),
            };
            head + render_from(cs, end, refs)
        }
    }
}

/// The Markdown rendering of a whole message.
pub open spec fn rendered_message(msg: Seq<char>, refs: Seq<Seq<char>>) -> Seq<char> {
    render_from(msg, 0, refs)
}

/// The views of the field references.
pub open spec fn ref_views(refs: Seq<String>) -> Seq<Seq<char>> {
    refs.map_values(|r: String| r@)
}

fn push_escaped_range(out: &mut String, cs: &Vec<char>, from: usize, to: usize)
    requires
        from <= to <= cs@.len(),
    ensures
        final(out)@ == old(out)@ + escaped_text(cs@.subrange(from as int, to as int)),
{
    let mut k = from;
    while k < to
        invariant
            from <= k <= to <= cs@.len(),
            out@ == old(out)@ + escaped_text(cs@.subrange(from as int, k as int)),
        decreases to - k,
    {
        assert(cs@.subrange(from as int, k + 1).drop_last() =~= cs@.subrange(from as int, k as int));
        push_escaped_markdown(out, cs[k]);
        k = k + 1;
    }
}

/// Rewrites an ETW message's `%N` placeholders into the form `{field_name}`, escaping
/// Markdown control characters in the rest.
pub fn render_message(msg: &str, field_refs: &[String]) -> (out: String)
    ensures
        out@ == rendered_message(msg@, ref_views(field_refs@)),
{
    let cs = chars_of(msg);
    let ghost refs = ref_views(field_refs@);
    let mut out = String::new();
    let mut i: usize = 0;
    while i < cs.len()
        invariant
            i <= cs@.len(),
            cs@ == msg@,
            refs == ref_views(field_refs@),
            rendered_message(msg@, refs) == out@ + render_from(cs@, i as int, refs),
        decreases cs.len() - i,
    {
        let ghost before = out@;
        if cs[i] != '%' {
            push_escaped_markdown(&mut out, cs[i]);
            i = i + 1;
            assert(out@ + render_from(cs@, i as int, refs) =~= before + render_from(cs@, i - 1, refs));
            continue;
        }
        if i + 1 < cs.len() && cs[i + 1] == '%' {
            push_escaped_markdown(&mut out, '%');
            i = i + 2;
            assert(out@ + render_from(cs@, i as int, refs) =~= before + render_from(cs@, i - 2, refs));
            continue;
        }
        let mut j = i + 1;
        while j < cs.len() && '0' <= cs[j] && cs[j] <= '9'
            invariant
                i + 1 <= j <= cs@.len(),
                digit_run_end(cs@, (i + 1) as int) == digit_run_end(cs@, j as int),
            decreases cs.len() - j,
        {
            j = j + 1;
        }
        assert(digit_run_end(cs@, j as int) == j);
        if j == i + 1 {
            push_escaped_markdown(&mut out, '%');
            i = i + 1;
            assert(out@ + render_from(cs@, i as int, refs) =~= before + render_from(cs@, i - 1, refs));
            continue;
        }
        proof {
            lemma_digit_run_end(cs@, (i + 1) as int);
        }
        let mut digits: Vec<char> = Vec::new();
        let mut k = i + 1;
        while k < j
            invariant
                i + 1 <= k <= j <= cs@.len(),
                digits@ =~= cs@.subrange(i + 1, k as int),
            decreases j - k,
        {
            digits.push(cs[k]);
            k = k + 1;
        }
        let n: Option<usize> = match parse_digits(digits.as_slice(), 10) {
            Some(v) => if v <= usize::MAX as u64 {
                Some(v as usize)
            } else {
                None
            },
            None => None,
        };
        proof {
            assert(crate::numbers::all_digits(digits@, 10)) by {
                assert forall|m: int| 0 <= m < digits@.len() implies (#[trigger] crate::numbers::digit_value(digits@[m], 10)) is Some by {
                    assert(is_ascii_digit(cs@[i + 1 + m]));
                }
            }
        }
        let mut end = j;
        if j < cs.len() && cs[j] == '!' {
            let mut b = j + 1;
            while b < cs.len() && cs[b] != '!'
                invariant
                    j + 1 <= b <= cs@.len(),
                    find_bang(cs@, (j + 1) as int) == find_bang(cs@, b as int),
                decreases cs.len() - b,
            {
                b = b + 1;
            }
            if b < cs.len() {
                end = b + 1;
            }
        }
        assert(end == placeholder_end(cs@, j as int));
        let found = match n {
            Some(n) => n >= 1 && n - 1 < field_refs.len(),
            None => false,
        };
        if found {
            let idx = n.unwrap() - 1;
            push_char(&mut out, '{');
            push_str(&mut out, field_refs[idx].as_str());
            push_char(&mut out, '}');
            assert(refs[idx as int] == field_refs@[idx as int]@);
            assert(out@ =~= before + (seq!['{'] + refs[idx as int] + seq!['}']));
        } else {
            push_escaped_range(&mut out, &cs, i, end);
        }
        assert(placeholder_ref(cs@.subrange((i + 1) as int, j as int), refs) == (if found {
            Some(refs[n.unwrap() - 1])
        } else {
            None
        }));
        let ghost old_i = i;
        i = end;
        assert(out@ + render_from(cs@, i as int, refs) =~= before + render_from(cs@, old_i as int, refs));
    }
    assert(render_from(cs@, i as int, refs) =~= Seq::<char>::empty());
    assert(out@ + Seq::<char>::empty() =~= out@);
    out
}

} // verus!

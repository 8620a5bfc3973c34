//! Turning manifest names into Rust identifiers.

use vstd::prelude::*;
use vstd::string::StringExecFns;

use crate::text::{chars_of, push_char, push_str};

verus! {

/// Whether a character has the Unicode property `XID_Start`.
pub uninterp spec fn xid_start(c: char) -> bool;

/// Whether a character has the Unicode property `XID_Continue`.
pub uninterp spec fn xid_continue(c: char) -> bool;

/// The text converted to `snake_case` by `convert_case`'s default word splitting.
pub uninterp spec fn snake_case_of(s: Seq<char>) -> Seq<char>;

/// The text converted to `PascalCase` by `convert_case`'s default word splitting.
pub uninterp spec fn pascal_case_of(s: Seq<char>) -> Seq<char>;

/// Whether a character is an ASCII letter.
pub open spec fn ascii_letter(c: char) -> bool {
    ('a' <= c && c <= 'z') || ('A' <= c && c <= 'Z')
}

/// Whether a character is an ASCII letter, an ASCII digit or an underscore.
pub open spec fn ascii_word(c: char) -> bool {
    ascii_letter(c) || ('0' <= c && c <= '9') || c == '_'
}

/// Calls `unicode_ident::is_xid_start`; the answer is named by `xid_start`, a function of the
/// character alone. Among ASCII characters exactly the letters are `XID_Start` (the crate's
/// ASCII bit table).
#[verifier::external_body]
fn is_xid_start(c: char) -> (b: bool)
    ensures
        b == xid_start(c),
        (c as u32) < 128 ==> (b <==> ascii_letter(c)),
{
    unicode_ident::is_xid_start(c)
}

/// Calls `unicode_ident::is_xid_continue`; the answer is named by `xid_continue`, a function
/// of the character alone. Among ASCII characters exactly the letters, the digits and the
/// underscore are `XID_Continue` (the crate's ASCII bit table).
#[verifier::external_body]
fn is_xid_continue(c: char) -> (b: bool)
    ensures
        b == xid_continue(c),
        (c as u32) < 128 ==> (b <==> ascii_word(c)),
{
    unicode_ident::is_xid_continue(c)
}

/// The words that `syn`'s `Ident` parser refuses as identifiers, spelled out letter by letter:
/// `_` and the Rust keywords, strict and reserved.
pub open spec fn syn_keyword(s: Seq<char>) -> bool {
    ||| s.len() == 1 && s[0] == '_'
    ||| s.len() == 8 && s[0] == 'a' && s[1] == 'b' && s[2] == 's' && s[3] == 't' && s[4] == 'r' && s[5] == 'a' && s[6] == 'c' && s[7] == 't'
    ||| s.len() == 2 && s[0] == 'a' && s[1] == 's'
    ||| s.len() == 5 && s[0] == 'a' && s[1] == 's' && s[2] == 'y' && s[3] == 'n' && s[4] == 'c'
    ||| s.len() == 5 && s[0] == 'a' && s[1] == 'w' && s[2] == 'a' && s[3] == 'i' && s[4] == 't'
    ||| s.len() == 6 && s[0] == 'b' && s[1] == 'e' && s[2] == 'c' && s[3] == 'o' && s[4] == 'm' && s[5] == 'e'
    ||| s.len() == 3 && s[0] == 'b' && s[1] == 'o' && s[2] == 'x'
    ||| s.len() == 5 && s[0] == 'b' && s[1] == 'r' && s[2] == 'e' && s[3] == 'a' && s[4] == 'k'
    ||| s.len() == 5 && s[0] == 'c' && s[1] == 'o' && s[2] == 'n' && s[3] == 's' && s[4] == 't'
    ||| s.len() == 8 && s[0] == 'c' && s[1] == 'o' && s[2] == 'n' && s[3] == 't' && s[4] == 'i' && s[5] == 'n' && s[6] == 'u' && s[7] == 'e'
    ||| s.len() == 5 && s[0] == 'c' && s[1] == 'r' && s[2] == 'a' && s[3] == 't' && s[4] == 'e'
    ||| s.len() == 2 && s[0] == 'd' && s[1] == 'o'
    ||| s.len() == 3 && s[0] == 'd' && s[1] == 'y' && s[2] == 'n'
    ||| s.len() == 4 && s[0] == 'e' && s[1] == 'l' && s[2] == 's' && s[3] == 'e'
    ||| s.len() == 4 && s[0] == 'e' && s[1] == 'n' && s[2] == 'u' && s[3] == 'm'
    ||| s.len() == 6 && s[0] == 'e' && s[1] == 'x' && s[2] == 't' && s[3] == 'e' && s[4] == 'r' && s[5] == 'n'
    ||| s.len() == 5 && s[0] == 'f' && s[1] == 'a' && s[2] == 'l' && s[3] == 's' && s[4] == 'e'
    ||| s.len() == 5 && s[0] == 'f' && s[1] == 'i' && s[2] == 'n' && s[3] == 'a' && s[4] == 'l'
    ||| s.len() == 2 && s[0] == 'f' && s[1] == 'n'
    ||| s.len() == 3 && s[0] == 'f' && s[1] == 'o' && s[2] == 'r'
    ||| s.len() == 2 && s[0] == 'i' && s[1] == 'f'
    ||| s.len() == 4 && s[0] == 'i' && s[1] == 'm' && s[2] == 'p' && s[3] == 'l'
    ||| s.len() == 2 && s[0] == 'i' && s[1] == 'n'
    ||| s.len() == 3 && s[0] == 'l' && s[1] == 'e' && s[2] == 't'
    ||| s.len() == 4 && s[0] == 'l' && s[1] == 'o' && s[2] == 'o' && s[3] == 'p'
    ||| s.len() == 5 && s[0] == 'm' && s[1] == 'a' && s[2] == 'c' && s[3] == 'r' && s[4] == 'o'
    ||| s.len() == 5 && s[0] == 'm' && s[1] == 'a' && s[2] == 't' && s[3] == 'c' && s[4] == 'h'
    ||| s.len() == 3 && s[0] == 'm' && s[1] == 'o' && s[2] == 'd'
    ||| s.len() == 4 && s[0] == 'm' && s[1] == 'o' && s[2] == 'v' && s[3] == 'e'
    ||| s.len() == 3 && s[0] == 'm' && s[1] == 'u' && s[2] == 't'
    ||| s.len() == 8 && s[0] == 'o' && s[1] == 'v' && s[2] == 'e' && s[3] == 'r' && s[4] == 'r' && s[5] == 'i' && s[6] == 'd' && s[7] == 'e'
    ||| s.len() == 4 && s[0] == 'p' && s[1] == 'r' && s[2] == 'i' && s[3] == 'v'
    ||| s.len() == 3 && s[0] == 'p' && s[1] == 'u' && s[2] == 'b'
    ||| s.len() == 3 && s[0] == 'r' && s[1] == 'e' && s[2] == 'f'
    ||| s.len() == 6 && s[0] == 'r' && s[1] == 'e' && s[2] == 't' && s[3] == 'u' && s[4] == 'r' && s[5] == 'n'
    ||| s.len() == 4 && s[0] == 'S' && s[1] == 'e' && s[2] == 'l' && s[3] == 'f'
    ||| s.len() == 4 && s[0] == 's' && s[1] == 'e' && s[2] == 'l' && s[3] == 'f'
    ||| s.len() == 6 && s[0] == 's' && s[1] == 't' && s[2] == 'a' && s[3] == 't' && s[4] == 'i' && s[5] == 'c'
    ||| s.len() == 6 && s[0] == 's' && s[1] == 't' && s[2] == 'r' && s[3] == 'u' && s[4] == 'c' && s[5] == 't'
    ||| s.len() == 5 && s[0] == 's' && s[1] == 'u' && s[2] == 'p' && s[3] == 'e' && s[4] == 'r'
    ||| s.len() == 5 && s[0] == 't' && s[1] == 'r' && s[2] == 'a' && s[3] == 'i' && s[4] == 't'
    ||| s.len() == 4 && s[0] == 't' && s[1] == 'r' && s[2] == 'u' && s[3] == 'e'
    ||| s.len() == 3 && s[0] == 't' && s[1] == 'r' && s[2] == 'y'
    ||| s.len() == 4 && s[0] == 't' && s[1] == 'y' && s[2] == 'p' && s[3] == 'e'
    ||| s.len() == 6 && s[0] == 't' && s[1] == 'y' && s[2] == 'p' && s[3] == 'e' && s[4] == 'o' && s[5] == 'f'
    ||| s.len() == 6 && s[0] == 'u' && s[1] == 'n' && s[2] == 's' && s[3] == 'a' && s[4] == 'f' && s[5] == 'e'
    ||| s.len() == 7 && s[0] == 'u' && s[1] == 'n' && s[2] == 's' && s[3] == 'i' && s[4] == 'z' && s[5] == 'e' && s[6] == 'd'
    ||| s.len() == 3 && s[0] == 'u' && s[1] == 's' && s[2] == 'e'
    ||| s.len() == 7 && s[0] == 'v' && s[1] == 'i' && s[2] == 'r' && s[3] == 't' && s[4] == 'u' && s[5] == 'a' && s[6] == 'l'
    ||| s.len() == 5 && s[0] == 'w' && s[1] == 'h' && s[2] == 'e' && s[3] == 'r' && s[4] == 'e'
    ||| s.len() == 5 && s[0] == 'w' && s[1] == 'h' && s[2] == 'i' && s[3] == 'l' && s[4] == 'e'
    ||| s.len() == 5 && s[0] == 'y' && s[1] == 'i' && s[2] == 'e' && s[3] == 'l' && s[4] == 'd'
}

/// Whether a text is an ASCII identifier: a letter or an underscore, then letters, digits and
/// underscores.
pub open spec fn ascii_ident_text(s: Seq<char>) -> bool {
    &&& s.len() > 0
    &&& (ascii_letter(s[0]) || s[0] == '_')
    &&& forall|i: int| 1 <= i < s.len() ==> ascii_word(#[trigger] s[i])
}

/// Calls `syn::parse_str::<syn::Ident>` and tells whether it accepts the text as an identifier
/// that is not a keyword. Whichever lexer runs (the compiler's inside a procedural macro,
/// `proc-macro2`'s fallback lexer elsewhere), an ASCII identifier text is one identifier token,
/// and `syn`'s `Ident` parser refuses exactly `_` and the keywords among them. Beyond ASCII the
/// two lexers use their own Unicode tables, so nothing is stated there.
#[verifier::external_body]
fn ident_parses(s: &str) -> (b: bool)
    ensures
        syn_keyword(s@) ==> !b,
        ascii_ident_text(s@) && !syn_keyword(s@) ==> b,
{
    syn::parse_str::<syn::Ident>(s).is_ok()
}

/// Calls `convert_case::Converter::convert` with `Case::Snake`; the result is named by
/// `snake_case_of`, a function of the text alone.
#[verifier::external_body]
pub(crate) fn to_snake_case(s: &str) -> (r: String)
    ensures
        r@ == snake_case_of(s@),
{
    convert_case::Converter::new().to_case(convert_case::Case::Snake).convert(s)
}

/// Calls `convert_case::Converter::convert` with `Case::Pascal`; the result is named by
/// `pascal_case_of`, a function of the text alone.
#[verifier::external_body]
pub(crate) fn to_pascal_case(s: &str) -> (r: String)
    ensures
        r@ == pascal_case_of(s@),
{
    convert_case::Converter::new().to_case(convert_case::Case::Pascal).convert(s)
}

/// One character of a cleaned identifier after the first: kept if it is `XID_Continue`,
/// otherwise an underscore.
pub open spec fn clean_rest_char(c: char) -> char {
    if xid_continue(c) { c } else { '_' }
}

/// The text made into identifier characters: a leading character that cannot start an
/// identifier gains an underscore in front (and is dropped unless it may continue one), any
/// other invalid character becomes an underscore, and empty text becomes `_`.
pub open spec fn cleaned_ident(s: Seq<char>) -> Seq<char> {
    if s.len() == 0 {
        seq!['_']
    } else {
        let first = if xid_start(s[0]) {
            seq![s[0]]
        } else if xid_continue(s[0]) {
            seq!['_', s[0]]
        } else {
            seq!['_']
        };
        first + s.drop_first().map_values(|c: char| clean_rest_char(c))
    }
}

/// Whether every character of a text is ASCII.
pub open spec fn all_ascii(s: Seq<char>) -> bool {
    forall|i: int| 0 <= i < s.len() ==> (#[trigger] s[i] as u32) < 128
}

/// One character of a cleaned ASCII name after the first: kept if it is a letter, a digit or an
/// underscore, otherwise an underscore.
pub open spec fn ascii_rest_char(c: char) -> char {
    if ascii_word(c) { c } else { '_' }
}

/// The cleaned form of an ASCII name: a leading letter is kept, a leading digit or underscore
/// gains an underscore in front, any other leading character becomes an underscore, every
/// later character that is not a letter, digit or underscore becomes one, and empty text
/// becomes `_`.
pub open spec fn ascii_cleaned(s: Seq<char>) -> Seq<char> {
    if s.len() == 0 {
        seq!['_']
    } else {
        ascii_first(s[0]) + s.drop_first().map_values(|c: char| ascii_rest_char(c))
    }
}

/// The start of a cleaned ASCII name whose first character is `c`.
pub open spec fn ascii_first(c: char) -> Seq<char> {
    if ascii_letter(c) {
        seq![c]
    } else if ascii_word(c) {
        seq!['_', c]
    } else {
        seq!['_']
    }
}

/// A cleaned ASCII name is an ASCII identifier text.
proof fn lemma_ascii_cleaned_is_ident(s: Seq<char>)
    ensures
        ascii_ident_text(ascii_cleaned(s)),
{
    let c = ascii_cleaned(s);
    if s.len() > 0 {
        let first = ascii_first(s[0]);
        let rest = s.drop_first().map_values(|ch: char| ascii_rest_char(ch));
        assert(c == first + rest);
        assert forall|i: int| 1 <= i < c.len() implies ascii_word(#[trigger] c[i]) by {
            if i >= first.len() {
                assert(c[i] == rest[i - first.len()]);
            }
        }
    }
}

/// Replaces invalid identifier characters with underscores and prepends an underscore when
/// required.
pub fn clean_ident(s: &str) -> (out: String)
    ensures
        out@ == cleaned_ident(s@),
        all_ascii(s@) ==> out@ == ascii_cleaned(s@),
{
    let cs = chars_of(s);
    let mut out = String::new();
    if cs.len() == 0 {
        push_char(&mut out, '_');
        return out;
    }
    let c = cs[0];
    if is_xid_start(c) {
        push_char(&mut out, c);
    } else {
        push_char(&mut out, '_');
        if is_xid_continue(c) {
            push_char(&mut out, c);
        }
    }
    let ghost first = out@;
    let mut i: usize = 1;
    while i < cs.len()
        invariant
            1 <= i <= cs@.len(),
            cs@ == s@,
            out@ =~= first + cs@.subrange(1, i as int).map_values(|c: char| clean_rest_char(c)),
            all_ascii(s@) ==> out@ =~= ascii_first(s@[0]) + cs@.subrange(1, i as int).map_values(
                |c: char| ascii_rest_char(c),
            ),
        decreases cs.len() - i,
    {
        let c = cs[i];
        let keep = is_xid_continue(c);
        push_char(&mut out, if keep { c } else { '_' });
        i = i + 1;
    }
    assert(cs@.subrange(1, i as int) =~= s@.drop_first());
    out
}

/// Whether a cleaned identifier is one that `r#` cannot escape: `crate`, `self`, `Self`,
/// `super` or `_`.
pub open spec fn needs_suffix(ident: Seq<char>) -> bool {
    ||| ident.len() == 5 && ident[0] == 'c' && ident[1] == 'r' && ident[2] == 'a' && ident[3] == 't' && ident[4] == 'e'
    ||| ident.len() == 4 && ident[0] == 's' && ident[1] == 'e' && ident[2] == 'l' && ident[3] == 'f'
    ||| ident.len() == 4 && ident[0] == 'S' && ident[1] == 'e' && ident[2] == 'l' && ident[3] == 'f'
    ||| ident.len() == 5 && ident[0] == 's' && ident[1] == 'u' && ident[2] == 'p' && ident[3] == 'e' && ident[4] == 'r'
    ||| ident.len() == 1 && ident[0] == '_'
}

/// An escaped form of a cleaned identifier, given whether it parses as a plain identifier: an
/// underscore suffix when `r#` cannot escape it, an `r#` prefix when it does not parse, and
/// unchanged otherwise.
pub open spec fn escaped_ident(ident: Seq<char>, parses: bool) -> Seq<char> {
    if needs_suffix(ident) {
        ident.push('_')
    } else if !parses {
        seq!['r', '#'] + ident
    } else {
        ident
    }
}

/// The identifier generated code uses for a name, given whether its cleaned form parses as a
/// plain identifier. Distinct names may give the same identifier.
pub open spec fn safe_ident_with(s: Seq<char>, parses: bool) -> Seq<char> {
    escaped_ident(cleaned_ident(s), parses)
}

/// Whether `r` is an identifier that `safe_ident` may give for the name `s`: the escaped form
/// of the cleaned name, with the answer of the identifier parser, which refuses the keywords
/// and, for ASCII names, accepts every other cleaned name.
pub open spec fn is_safe_ident_of(s: Seq<char>, r: Seq<char>) -> bool {
    &&& r == safe_ident_with(s, true) || r == safe_ident_with(s, false)
    &&& syn_keyword(cleaned_ident(s)) ==> r == safe_ident_with(s, false)
    &&& all_ascii(s) ==> r == ascii_safe_ident(s)
}

/// The identifier `safe_ident` gives for an ASCII name: the cleaned name, escaped when it is
/// `_` or a keyword and left unchanged otherwise.
pub open spec fn ascii_safe_ident(s: Seq<char>) -> Seq<char> {
    escaped_ident(ascii_cleaned(s), !syn_keyword(ascii_cleaned(s)))
}

/// Whether a cleaned identifier is one that `r#` cannot escape.
fn is_suffix_word(ident: &str) -> (b: bool)
    ensures
        b == needs_suffix(ident@),
{
    let cs = chars_of(ident);
    let n = cs.len();
    (n == 5 && cs[0] == 'c' && cs[1] == 'r' && cs[2] == 'a' && cs[3] == 't' && cs[4] == 'e')
        || (n == 4 && cs[0] == 's' && cs[1] == 'e' && cs[2] == 'l' && cs[3] == 'f')
        || (n == 4 && cs[0] == 'S' && cs[1] == 'e' && cs[2] == 'l' && cs[3] == 'f')
        || (n == 5 && cs[0] == 's' && cs[1] == 'u' && cs[2] == 'p' && cs[3] == 'e' && cs[4] == 'r')
        || (n == 1 && cs[0] == '_')
}

/// Escapes an already cleaned identifier, given whether it parses as a plain identifier.
pub fn safe_ident_from(ident: &str, parses: bool) -> (r: String)
    ensures
        r@ == escaped_ident(ident@, parses),
{
    if is_suffix_word(ident) {
        let mut r = String::from_str(ident);
        push_char(&mut r, '_');
        r
    } else if !parses {
        let mut r = String::from_str("r#");
        push_str(&mut r, ident);
        proof {
            reveal_strlit("r#");
        }
        r
    } else {
        String::from_str(ident)
    }
}

/// Converts a string into a valid identifier. The logic here may create collisions.
pub fn safe_ident(s: &str) -> (r: String)
    ensures
        is_safe_ident_of(s@, r@),
{
    let ident = clean_ident(s);
    proof {
        lemma_ascii_cleaned_is_ident(s@);
    }
    let parses = ident_parses(ident.as_str());
    safe_ident_from(ident.as_str(), parses)
}

} // verus!

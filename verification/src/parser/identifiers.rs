//! Identifier parser for MiniC.
//!
//! An identifier starts with a letter or an underscore; the characters that
//! follow may be letters, digits or underscores. The longest such prefix of
//! the input is taken, and refused if it is a reserved word.

use vstd::prelude::*;
use vstd::string::{StrSliceExecFns, StringExecFns};

verus! {

/// Whether `c` has the Unicode `Alphabetic` property (what
/// `char::is_alphabetic` reports).
pub uninterp spec fn unicode_alphabetic(c: char) -> bool;

/// Whether `c` is alphabetic or numeric in Unicode (what
/// `char::is_alphanumeric` reports).
pub uninterp spec fn unicode_alphanumeric(c: char) -> bool;

/// Calls `char::is_alphabetic`. The result is named, not stated: it follows
/// the Unicode tables of the standard library.
#[verifier::external_body]
fn is_alphabetic(c: char) -> (r: bool)
    ensures
        r == unicode_alphabetic(c),
{
    c.is_alphabetic()
}

/// Calls `char::is_alphanumeric`, which std documents as `is_alphabetic() ||
/// is_numeric()`: an alphabetic character is alphanumeric. What else is
/// numeric is left to the named result.
#[verifier::external_body]
fn is_alphanumeric(c: char) -> (r: bool)
    ensures
        r == unicode_alphanumeric(c),
        unicode_alphabetic(c) ==> r,
{
    c.is_alphanumeric()
}

/// Why the input does not start with an identifier.
#[derive(Debug, Clone, Copy, PartialEq, Eq)]
pub enum IdentifierError {
    /// The input does not start with a letter or an underscore.
    NoIdentifier,
    /// The longest identifier-shaped prefix is a reserved word.
    Reserved,
}

pub open spec fn starts_identifier(c: char) -> bool {
    unicode_alphabetic(c) || c == '_'
}

pub open spec fn continues_identifier(c: char) -> bool {
    unicode_alphanumeric(c) || c == '_'
}

/// The length of the longest prefix of `s` whose characters may continue an
/// identifier.
pub open spec fn continuation_len(s: Seq<char>) -> nat
    decreases s.len(),
{
    if s.len() == 0 || !continues_identifier(s[0]) {
        0
    } else {
        1 + continuation_len(s.drop_first())
    }
}

/// The length of the identifier at the start of `s` (0 if there is none).
pub open spec fn identifier_len(s: Seq<char>) -> nat {
    if s.len() > 0 && starts_identifier(s[0]) {
        1 + continuation_len(s.drop_first())
    } else {
        0
    }
}

/// Reserved words: the boolean literals and the type names.
pub open spec fn is_reserved(w: Seq<char>) -> bool {
    w == "true"@ || w == "false"@ || w == "int"@ || w == "float"@ || w == "bool"@ || w == "str"@ || w == "void"@
}

/// What `identifier` gives for the input `s`: the rest of the input and the
/// identifier, or why there is none.
pub open spec fn identifier_result(s: Seq<char>) -> Result<(Seq<char>, Seq<char>), IdentifierError> {
    let n = identifier_len(s);
    if n == 0 {
        Err(IdentifierError::NoIdentifier)
    } else if is_reserved(s.take(n as int)) {
        Err(IdentifierError::Reserved)
    } else {
        Ok((s.skip(n as int), s.take(n as int)))
    }
}

fn reserved(w: &str) -> (r: bool)
    ensures
        r == is_reserved(w@),
{
    let s = w.to_owned();
    s == String::from_str("true") || s == String::from_str("false") || s == String::from_str("int")
        || s == String::from_str("float") || s == String::from_str("bool") || s == String::from_str("str")
        || s == String::from_str("void")
}

/// Parses an identifier (variable name) at the start of `input`; returns the
/// rest of the input and the identifier.
pub fn identifier(input: &str) -> (res: Result<(&str, &str), IdentifierError>)
    ensures
        match identifier_result(input@) {
            Ok((rest, word)) => res matches Ok((r, w)) && r@ == rest && w@ == word,
            Err(e) => res == Err::<(&str, &str), IdentifierError>(e),
        },
{
    let ghost s = input@;
    let n = input.unicode_len();
    if n == 0 {
        return Err(IdentifierError::NoIdentifier);
    }
    let first = input.get_char(0);
    if !(is_alphabetic(first) || first == '_') {
        return Err(IdentifierError::NoIdentifier);
    }
    let mut i: usize = 1;
    proof {
        assert(s.drop_first() =~= s.skip(1));
    }
    while i < n
        invariant
            1 <= i <= n,
            n == s.len(),
            s == input@,
            continuation_len(s.skip(1)) == (i - 1) + continuation_len(s.skip(i as int)),
        ensures
            1 <= i <= n,
            continuation_len(s.skip(1)) == (i - 1) + continuation_len(s.skip(i as int)),
            i < n ==> !continues_identifier(s[i as int]),
        decreases n - i,
    {
        let c = input.get_char(i);
        if !(is_alphanumeric(c) || c == '_') {
            break;
        }
        proof {
            assert(s.skip(i as int)[0] == c);
            assert(s.skip(i as int).drop_first() =~= s.skip(i + 1));
        }
        i = i + 1;
    }
    proof {
        if i < n {
            assert(s.skip(i as int)[0] == s[i as int]);
        }
        assert(continuation_len(s.skip(i as int)) == 0);
        assert(identifier_len(s) == i);
    }
    let word = input.substring_char(0, i);
    if reserved(word) {
        proof {
            assert(word@ =~= s.take(i as int));
        }
        return Err(IdentifierError::Reserved);
    }
    let rest = input.substring_char(i, n);
    proof {
        assert(word@ =~= s.take(i as int));
        assert(rest@ =~= s.skip(i as int));
    }
    Ok((rest, word))
}


/// The reserved words are exactly `true`, `false`, `int`, `float`, `bool`,
/// `str` and `void`: an identifier-shaped prefix is refused as reserved if
/// and only if it is one of them, and any other (such as `main`) is
/// accepted, with the rest of the input after it.
pub proof fn law_reserved_words(s: Seq<char>)
    ensures
        ({
            let n = identifier_len(s);
            let w = s.take(n as int);
            &&& n > 0 && (w == "true"@ || w == "false"@ || w == "int"@ || w == "float"@
                || w == "bool"@ || w == "str"@ || w == "void"@)
                ==> identifier_result(s) == Err::<(Seq<char>, Seq<char>), IdentifierError>(IdentifierError::Reserved)
            &&& n > 0 && !(w == "true"@ || w == "false"@ || w == "int"@ || w == "float"@
                || w == "bool"@ || w == "str"@ || w == "void"@)
                ==> identifier_result(s) == Ok::<(Seq<char>, Seq<char>), IdentifierError>((s.skip(n as int), w))
        }),
        is_reserved("true"@) && is_reserved("false"@) && is_reserved("int"@) && is_reserved("float"@)
            && is_reserved("bool"@) && is_reserved("str"@) && is_reserved("void"@),
        !is_reserved("main"@),
{
    reveal_strlit("main");
    reveal_strlit("true");
    reveal_strlit("false");
    reveal_strlit("int");
    reveal_strlit("float");
    reveal_strlit("bool");
    reveal_strlit("str");
    reveal_strlit("void");
    let m = "main"@;
    assert(m[0] != "true"@[0] && m[0] != "bool"@[0] && m[0] != "void"@[0]);
    assert(m.len() != "false"@.len() && m.len() != "int"@.len() && m.len() != "float"@.len() && m.len() != "str"@.len());
    assert(m != "true"@ && m != "bool"@ && m != "void"@);
    assert(m != "false"@ && m != "int"@ && m != "float"@ && m != "str"@);
}


proof fn lemma_continuation(s: Seq<char>)
    ensures
        continuation_len(s) <= s.len(),
        forall|i: int| 0 <= i < continuation_len(s) ==> continues_identifier(#[trigger] s[i]),
        continuation_len(s) < s.len() ==> !continues_identifier(s[continuation_len(s) as int]),
    decreases s.len(),
{
    if s.len() > 0 && continues_identifier(s[0]) {
        let t = s.drop_first();
        lemma_continuation(t);
        assert forall|i: int| 0 <= i < continuation_len(s) implies continues_identifier(#[trigger] s[i]) by {
            if i > 0 {
                assert(s[i] == t[i - 1]);
            }
        }
        if continuation_len(s) < s.len() {
            assert(s[continuation_len(s) as int] == t[continuation_len(t) as int]);
        }
    }
}

/// An identifier is the longest prefix of the input that starts with a
/// letter or an underscore and goes on with letters, digits or underscores:
/// each character of the identifier is of that kind, and the character after
/// it (if any) is not. There is none exactly when the input is empty or
/// starts with another character.
pub proof fn law_identifier_is_longest_prefix(s: Seq<char>)
    ensures
        starts_identifier('_') && continues_identifier('_'),
        identifier_len(s) <= s.len(),
        identifier_len(s) == 0 <==> (s.len() == 0 || !starts_identifier(s[0])),
        identifier_len(s) > 0 ==> {
            &&& starts_identifier(s[0])
            &&& forall|i: int| 1 <= i < identifier_len(s) ==> continues_identifier(#[trigger] s[i])
            &&& identifier_len(s) < s.len() ==> !continues_identifier(s[identifier_len(s) as int])
        },
{
    if s.len() > 0 && starts_identifier(s[0]) {
        let t = s.drop_first();
        lemma_continuation(t);
        assert forall|i: int| 1 <= i < identifier_len(s) implies continues_identifier(#[trigger] s[i]) by {
            assert(s[i] == t[i - 1]);
        }
        if identifier_len(s) < s.len() {
            assert(s[identifier_len(s) as int] == t[continuation_len(t) as int]);
        }
    }
}

} // verus!

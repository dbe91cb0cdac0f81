//! Block identifiers: a namespace and a bare name, joined by a colon.

use vstd::prelude::*;
use vstd::std_specs::iter::IteratorSpec;
use vstd::string::StrSliceExecFns;

verus! {

/// The identifier of air, the block that an empty slot holds.
pub const AIR_IDENTIFIER: &'static str = "minecraft:air";

/// The namespace of air, and of every identifier that names none.
pub const DEFAULT_NAMESPACE: &'static str = "minecraft";

/// The bare name of air.
pub const DEFAULT_NAME: &'static str = "air";

/// The separator between namespace and bare name.
pub const SEPARATOR: char = ':';

/// The place of the first separator of `text` at or after `from`, or the
/// length of `text` where there is none.
pub open spec fn separator_from(text: Seq<char>, from: int) -> int
    decreases text.len() - from,
{
    if from < 0 || from >= text.len() {
        text.len() as int
    } else if text[from] == ':' {
        from
    } else {
        separator_from(text, from + 1)
    }
}

/// Whether `identifier` has a separator.
pub open spec fn has_separator(identifier: Seq<char>) -> bool {
    separator_from(identifier, 0) < identifier.len()
}

/// The namespace of `identifier`: what stands before its first separator,
/// or the default namespace where it has none.
pub open spec fn namespace_of(identifier: Seq<char>) -> Seq<char> {
    if has_separator(identifier) {
        identifier.subrange(0, separator_from(identifier, 0))
    } else {
        "minecraft"@
    }
}

/// The bare name of `identifier`: what stands after its first separator, or
/// the default name where it has none.
pub open spec fn bare_name_of(identifier: Seq<char>) -> Seq<char> {
    if has_separator(identifier) {
        identifier.subrange(separator_from(identifier, 0) + 1, identifier.len() as int)
    } else {
        "air"@
    }
}

/// Where no separator stands between `from` and `at`, the first separator
/// from `from` is the first one from `at`.
pub proof fn lemma_separator_skips(text: Seq<char>, from: int, at: int)
    requires
        0 <= from <= at <= text.len(),
        forall|j: int| from <= j < at ==> text[j] != ':',
    ensures
        separator_from(text, from) == separator_from(text, at),
    decreases at - from,
{
    if from < at {
        lemma_separator_skips(text, from + 1, at);
    }
}

/// Whether `left` and `right` hold the same characters.
pub fn same_text(left: &str, right: &str) -> (r: bool)
    ensures
        r == (left@ == right@),
{
    let mut left_chars = left.chars();
    let mut right_chars = right.chars();
    let ghost mut at: int = 0;
    proof {
        vstd::string::axiom_spec_iter(left);
        vstd::string::axiom_spec_iter(right);
    }
    loop
        invariant
            0 <= at <= left@.len(),
            at <= right@.len(),
            left_chars.obeys_prophetic_iter_laws(),
            right_chars.obeys_prophetic_iter_laws(),
            left_chars.remaining() == left@.skip(at),
            right_chars.remaining() == right@.skip(at),
            forall|j: int| 0 <= j < at ==> left@[j] == right@[j],
        decreases left@.len() - at,
    {
        let ghost left_before = left_chars;
        let ghost right_before = right_chars;
        let left_next = left_chars.next();
        let right_next = right_chars.next();
        proof {
            vstd::string::next_postcondition(&left_before, &left_chars, left_next);
            vstd::string::next_postcondition(&right_before, &right_chars, right_next);
        }
        match (left_next, right_next) {
            (Some(l), Some(r)) => {
                assert(l == left@[at] && r == right@[at]);
                if l != r {
                    return false;
                }
                assert(left@.skip(at).drop_first() == left@.skip(at + 1));
                assert(right@.skip(at).drop_first() == right@.skip(at + 1));
                proof {
                    at = at + 1;
                }
            },
            (None, None) => {
                assert(left@ =~= right@);
                return true;
            },
            _ => {
                assert(left@.len() != right@.len());
                return false;
            },
        }
    }
}

/// Whether `identifier` is exactly the identifier of air.
pub fn is_air(identifier: &str) -> (r: bool)
    ensures
        r == (identifier@ == "minecraft:air"@),
{
    same_text(identifier, AIR_IDENTIFIER)
}

/// Splits `identifier` at its first separator into namespace and bare name.
pub fn split_identifier<'a>(identifier: &'a str) -> (r: (&'a str, &'a str))
    ensures
        r.0@ == namespace_of(identifier@),
        r.1@ == bare_name_of(identifier@),
{
    let len: usize = identifier.unicode_len();
    let mut chars = identifier.chars();
    let mut at: usize = 0;
    let mut found: bool = false;
    proof {
        vstd::string::axiom_spec_iter(identifier);
    }
    loop
        invariant_except_break
            !found,
            chars.remaining() == identifier@.skip(at as int),
        invariant
            len == identifier@.len(),
            at <= len,
            chars.obeys_prophetic_iter_laws(),
            forall|j: int| 0 <= j < at ==> identifier@[j] != ':',
        ensures
            found ==> at < len && identifier@[at as int] == ':',
            !found ==> at == len,
        decreases len - at,
    {
        let ghost before = chars;
        let next = chars.next();
        proof {
            vstd::string::next_postcondition(&before, &chars, next);
        }
        match next {
            Some(c) => {
                assert(c == identifier@[at as int]);
                if c == SEPARATOR {
                    found = true;
                    break ;
                }
                assert(identifier@.skip(at as int).drop_first() == identifier@.skip(at + 1));
                at = at + 1;
            },
            None => {
                break ;
            },
        }
    }
    proof {
        lemma_separator_skips(identifier@, 0, at as int);
    }
    if found {
        (identifier.substring_char(0, at), identifier.substring_char(at + 1, len))
    } else {
        (DEFAULT_NAMESPACE, DEFAULT_NAME)
    }
}

} // verus!

//! The tag tree, as far as the decoder reads it.
//!
//! A chunk document is a `nbt::CompoundTag`. Nothing inside one is visible to
//! the verifier, so this module gives its contents a mathematical name,
//! [`tag_entries`], and states, without proof, what each accessor that the
//! decoder calls returns in terms of that name. Everything else in the crate
//! is proved from these statements.

use vstd::prelude::*;

verus! {

/// A compound tag: named tags, kept by the tag-tree crate.
#[verifier::external_type_specification]
#[verifier::external_body]
pub struct ExCompoundTag(nbt::CompoundTag);

/// Why an accessor of a compound tag returned nothing: no tag of that name,
/// or one of another type.
#[verifier::external_type_specification]
#[verifier::external_body]
pub struct ExCompoundTagError<'a>(nbt::CompoundTagError<'a>);

/// Why bytes could not be read as a tag tree.
#[verifier::external_type_specification]
#[verifier::external_body]
pub struct ExTagDecodeError(nbt::decode::TagDecodeError);

/// What one tag holds. The two floating-point kinds stand without their
/// payload: the decoder never reads one.
pub enum TagValue {
    Byte(i8),
    Short(i16),
    Int(i32),
    Long(i64),
    Float,
    Double,
    ByteArray(Seq<i8>),
    Text(Seq<char>),
    List(Seq<TagValue>),
    Compound(Map<Seq<char>, TagValue>),
    IntArray(Seq<i32>),
    LongArray(Seq<i64>),
}

/// The tags of a compound tag, by name.
pub type TagEntries = Map<Seq<char>, TagValue>;

/// The tags that `tag` holds, by name.
pub uninterp spec fn tag_entries(tag: nbt::CompoundTag) -> Map<Seq<char>, TagValue>;

/// The tags of the document that `payload` inflates to, or `None` where it
/// does not inflate to a tag tree with a compound tag at its root.
pub uninterp spec fn inflated_entries(payload: Seq<u8>) -> Option<Map<Seq<char>, TagValue>>;

/// The 32-bit integer called `name`, if there is one.
pub open spec fn int_at(entries: TagEntries, name: Seq<char>) -> Option<i32> {
    if entries.contains_key(name) && entries[name] is Int {
        Some(entries[name]->Int_0)
    } else {
        None
    }
}

/// The byte called `name`, if there is one.
pub open spec fn byte_at(entries: TagEntries, name: Seq<char>) -> Option<i8> {
    if entries.contains_key(name) && entries[name] is Byte {
        Some(entries[name]->Byte_0)
    } else {
        None
    }
}

/// The string called `name`, if there is one.
pub open spec fn text_at(entries: TagEntries, name: Seq<char>) -> Option<Seq<char>> {
    if entries.contains_key(name) && entries[name] is Text {
        Some(entries[name]->Text_0)
    } else {
        None
    }
}

/// The array of 64-bit integers called `name`, if there is one.
pub open spec fn long_array_at(entries: TagEntries, name: Seq<char>) -> Option<Seq<i64>> {
    if entries.contains_key(name) && entries[name] is LongArray {
        Some(entries[name]->LongArray_0)
    } else {
        None
    }
}

/// The tags of the compound tag called `name`, if there is one.
pub open spec fn compound_at(entries: TagEntries, name: Seq<char>) -> Option<TagEntries> {
    if entries.contains_key(name) && entries[name] is Compound {
        Some(entries[name]->Compound_0)
    } else {
        None
    }
}

/// Whether every tag of `list` is a compound tag.
pub open spec fn all_compound(list: Seq<TagValue>) -> bool {
    forall|i: int| 0 <= i < list.len() ==> (#[trigger] list[i]) is Compound
}

/// The compound tags of the list called `name`, each by its tags, if there
/// is such a list and it holds nothing but compound tags.
pub open spec fn compound_list_at(entries: TagEntries, name: Seq<char>) -> Option<
    Seq<TagEntries>,
> {
    if entries.contains_key(name) && entries[name] is List && all_compound(
        entries[name]->List_0,
    ) {
        let list = entries[name]->List_0;
        Some(Seq::new(list.len(), |i: int| list[i]->Compound_0))
    } else {
        None
    }
}

/// `CompoundTag::new` makes a tag that holds nothing.
pub assume_specification[ nbt::CompoundTag::new ]() -> (r: nbt::CompoundTag)
    ensures
        tag_entries(r) == TagEntries::empty(),
;

/// `CompoundTag::get_i32` returns the payload of the tag called `name` where
/// that is an `Int`, and an error where there is none or it is of another
/// type.
pub assume_specification<'a>[ nbt::CompoundTag::get_i32 ](
    tag: &'a nbt::CompoundTag,
    name: &'a str,
) -> (r: Result<i32, nbt::CompoundTagError<'a>>)
    ensures
        match r {
            Ok(value) => int_at(tag_entries(*tag), name@) == Some(value),
            Err(_) => int_at(tag_entries(*tag), name@) is None,
        },
;

/// `CompoundTag::get_i8` returns the payload of the tag called `name` where
/// that is a `Byte`, and an error where there is none or it is of another
/// type.
pub assume_specification<'a>[ nbt::CompoundTag::get_i8 ](
    tag: &'a nbt::CompoundTag,
    name: &'a str,
) -> (r: Result<i8, nbt::CompoundTagError<'a>>)
    ensures
        match r {
            Ok(value) => byte_at(tag_entries(*tag), name@) == Some(value),
            Err(_) => byte_at(tag_entries(*tag), name@) is None,
        },
;

/// `CompoundTag::get_str` returns the text of the tag called `name` where
/// that is a `String`, and an error where there is none or it is of another
/// type.
pub assume_specification<'a>[ nbt::CompoundTag::get_str ](
    tag: &'a nbt::CompoundTag,
    name: &'a str,
) -> (r: Result<&'a str, nbt::CompoundTagError<'a>>)
    ensures
        match r {
            Ok(value) => text_at(tag_entries(*tag), name@) == Some(value@),
            Err(_) => text_at(tag_entries(*tag), name@) is None,
        },
;

/// `CompoundTag::get_i64_vec` returns the payload of the tag called `name`
/// where that is a `LongArray`, and an error where there is none or it is
/// of another type.
pub assume_specification<'a>[ nbt::CompoundTag::get_i64_vec ](
    tag: &'a nbt::CompoundTag,
    name: &'a str,
) -> (r: Result<&'a Vec<i64>, nbt::CompoundTagError<'a>>)
    ensures
        match r {
            Ok(value) => long_array_at(tag_entries(*tag), name@) == Some(value@),
            Err(_) => long_array_at(tag_entries(*tag), name@) is None,
        },
;

/// `CompoundTag::get_compound_tag` returns the tag called `name` where that
/// is a `Compound`, and an error where there is none or it is of another
/// type.
pub assume_specification<'a>[ nbt::CompoundTag::get_compound_tag ](
    tag: &'a nbt::CompoundTag,
    name: &'a str,
) -> (r: Result<&'a nbt::CompoundTag, nbt::CompoundTagError<'a>>)
    ensures
        match r {
            Ok(value) => compound_at(tag_entries(*tag), name@) == Some(tag_entries(*value)),
            Err(_) => compound_at(tag_entries(*tag), name@) is None,
        },
;

/// `CompoundTag::get_compound_tag_vec` returns the tags of the list called
/// `name`, in the list's order, where that is a `List` of nothing but
/// `Compound` tags (an empty list is one), and an error where there is no
/// such tag, it is no list, or one of its tags is of another type.
pub assume_specification<'a>[ nbt::CompoundTag::get_compound_tag_vec ](
    tag: &'a nbt::CompoundTag,
    name: &'a str,
) -> (r: Result<Vec<&'a nbt::CompoundTag>, nbt::CompoundTagError<'a>>)
    ensures
        match r {
            Ok(tags) => {
                &&& compound_list_at(tag_entries(*tag), name@) matches Some(list)
                &&& list.len() == tags@.len()
                &&& forall|i: int|
                    0 <= i < tags@.len() ==> tag_entries(*#[trigger] tags@[i]) == list[i]
            },
            Err(_) => compound_list_at(tag_entries(*tag), name@) is None,
        },
;

/// Calls `nbt::decode::read_zlib_compound_tag` on `payload`: inflates it as
/// a zlib stream and reads what comes out as one named compound tag. The
/// result depends on the bytes alone, so it has a name; of a failure no more
/// is said than that it is one. Bytes after the end of the stream, and
/// inflated bytes after the end of the root tag, are never read.
///
/// The reader recurses once for each level of nesting and keeps the whole
/// tree in memory: the contract speaks of the calls that return.
#[verifier::external_body]
pub(crate) fn inflate_document(payload: &[u8]) -> (r: Result<
    nbt::CompoundTag,
    nbt::decode::TagDecodeError,
>)
    ensures
        match r {
            Ok(tag) => inflated_entries(payload@) == Some(tag_entries(tag)),
            Err(_) => inflated_entries(payload@) is None,
        },
{
    let mut reader: &[u8] = payload;
    nbt::decode::read_zlib_compound_tag(&mut reader)
}

} // verus!

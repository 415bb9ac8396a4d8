//! Extraction of a group label from a contract artifact's compiler metadata:
//! the NatSpec documentation objects `output.devdoc` and `output.userdoc`,
//! read through a tag selector (`@title`, `@notice` or `@custom:<key>`).

use vstd::prelude::*;
use vstd::string::*;
use crate::json::{json_from_text, parsed_json, spec_as_str, spec_lookup, Json, JsonValue};
use crate::text::{starts_with, str_eq};

verus! {

/// The string under `key`, when `j` has that field and it is a string.
pub open spec fn spec_string_field(j: Json, key: Seq<char>) -> Option<Seq<char>> {
    match spec_lookup(j, key) {
        Some(f) => spec_as_str(f),
        None => None,
    }
}

/// The label a documentation object yields for a tag selector:
/// `@title` and `@notice` read the field of that name, `@custom:<key>` reads
/// `custom.<key>`, and any other selector yields nothing.  A non-string value
/// at the target counts as absent.
pub open spec fn spec_tag_label(doc: Json, tag: Seq<char>) -> Option<Seq<char>> {
    if tag == "@title"@ {
        spec_string_field(doc, "title"@)
    } else if tag == "@notice"@ {
        spec_string_field(doc, "notice"@)
    } else if "@custom:"@.is_prefix_of(tag) {
        match spec_lookup(doc, "custom"@) {
            Some(c) => spec_string_field(c, tag.skip("@custom:"@.len() as int)),
            None => None,
        }
    } else {
        None
    }
}

/// The group label of a parsed metadata document: the label found under
/// `output.devdoc` first, else under `output.userdoc`, else nothing; a
/// metadata text that is not valid JSON yields nothing.
pub open spec fn spec_group_of_meta(meta: Option<Json>, tag: Seq<char>) -> Option<Seq<char>> {
    match meta {
        Some(mj) => match spec_lookup(mj, "output"@) {
            Some(out) => {
                let dev = match spec_lookup(out, "devdoc"@) {
                    Some(d) => spec_tag_label(d, tag),
                    None => None,
                };
                match dev {
                    Some(g) => Some(g),
                    None => match spec_lookup(out, "userdoc"@) {
                        Some(u) => spec_tag_label(u, tag),
                        None => None,
                    },
                }
            },
            None => None,
        },
        None => None,
    }
}

/// The group label of a whole artifact document: its `metadata` field is a
/// JSON-encoded string that is parsed and searched by `spec_group_of_meta`.
/// An artifact that does not parse, or without a string `metadata` field,
/// yields nothing.
pub open spec fn spec_group(artifact: Option<Json>, tag: Seq<char>) -> Option<Seq<char>> {
    match artifact {
        Some(a) => match spec_lookup(a, "metadata"@) {
            Some(m) => match spec_as_str(m) {
                Some(mtext) => spec_group_of_meta(parsed_json(mtext), tag),
                None => None,
            },
            None => None,
        },
        None => None,
    }
}

/// The string field `key` of `v`, copied out.
fn get_string_field(v: &JsonValue, key: &str) -> (r: Option<String>)
    ensures
        match r {
            Some(s) => spec_string_field(v@, key@) == Some(s@),
            None => spec_string_field(v@, key@) is None,
        },
{
    match v.get(key) {
        Some(f) => match f.as_str() {
            Some(s) => Some(String::from_str(s.as_str())),
            None => None,
        },
        None => None,
    }
}

/// Extract the label a documentation object yields for `tag`, as
/// [`spec_tag_label`] describes.
pub fn extract_tag_from_doc(doc: &JsonValue, tag: &str) -> (r: Option<String>)
    ensures
        match r {
            Some(g) => spec_tag_label(doc@, tag@) == Some(g@),
            None => spec_tag_label(doc@, tag@) is None,
        },
{
    if str_eq(tag, "@title") {
        get_string_field(doc, "title")
    } else if str_eq(tag, "@notice") {
        get_string_field(doc, "notice")
    } else if starts_with(tag, "@custom:") {
        let plen = "@custom:".unicode_len();
        let n = tag.unicode_len();
        let key = tag.substring_char(plen, n);
        proof {
            assert(key@ =~= tag@.skip("@custom:"@.len() as int));
        }
        match doc.get("custom") {
            Some(c) => get_string_field(c, key),
            None => None,
        }
    } else {
        None
    }
}

/// Extract the group label of an artifact document's text under `tag`, as
/// [`spec_group`] describes: `devdoc` is searched before `userdoc`, and any
/// failure along the way yields `None` rather than an error.
pub fn extract_group_from_metadata(content: &str, tag: &str) -> (r: Option<String>)
    ensures
        match r {
            Some(g) => spec_group(parsed_json(content@), tag@) == Some(g@),
            None => spec_group(parsed_json(content@), tag@) is None,
        },
{
    match json_from_text(content) {
        Some(art) => match art.get("metadata") {
            Some(m) => match m.as_str() {
                Some(mtext) => match json_from_text(mtext.as_str()) {
                    Some(meta) => match meta.get("output") {
                        Some(out) => {
                            let dev = match out.get("devdoc") {
                                Some(d) => extract_tag_from_doc(d, tag),
                                None => None,
                            };
                            match dev {
                                Some(g) => Some(g),
                                None => match out.get("userdoc") {
                                    Some(u) => extract_tag_from_doc(u, tag),
                                    None => None,
                                },
                            }
                        },
                        None => None,
                    },
                    None => None,
                },
                None => None,
            },
            None => None,
        },
        None => None,
    }
}

} // verus!

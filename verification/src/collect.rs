//! The ABI collector: filtering artifact files, validating their ABI arrays,
//! extracting a group label per artifact, and accumulating the partitioned
//! collection of contract ABIs.

use vstd::prelude::*;
use vstd::string::*;
use crate::json::{
    arr_views, lemma_arr_views, lemma_obj_views, obj_views, parsed_json, spec_lookup,
    spec_obj_lookup_at, Json, JsonValue,
};
use crate::metadata::{extract_group_from_metadata, spec_group};
use crate::text::{
    contains_sub, rfind_char, spec_contains, spec_rfind, str_eq, lemma_rfind_props,
};

verus! {

/// The model of one collected contract ABI.
pub struct SpecCollectedAbi {
    /// The contract name: the artifact file's stem.
    pub name: Seq<char>,
    /// The artifact's path relative to the artifacts root.
    pub path: Seq<char>,
    /// The entries of the artifact's `abi` array.
    pub abi: Seq<Json>,
    /// The group label extracted from the artifact's metadata, if any.
    pub group: Option<Seq<char>>,
}

/// The model of a partitioned collection of contract ABIs.
pub struct SpecCollection {
    /// Groups in order of first appearance, each with its members in order.
    pub grouped: Seq<(Seq<char>, Seq<SpecCollectedAbi>)>,
    /// The artifacts without a group label, in order.
    pub ungrouped: Seq<SpecCollectedAbi>,
}

/// One collected contract ABI.
#[derive(Debug)]
pub struct CollectedABI {
    /// The contract name: the artifact file's stem.
    pub contract_name: String,
    /// The artifact's path relative to the artifacts root.
    pub file_path: String,
    /// The entries of the artifact's `abi` array.
    pub abi: Vec<JsonValue>,
    /// The group label extracted from the artifact's metadata, if any.
    pub group: Option<String>,
}

impl View for CollectedABI {
    type V = SpecCollectedAbi;

    open spec fn view(&self) -> SpecCollectedAbi {
        SpecCollectedAbi {
            name: self.contract_name@,
            path: self.file_path@,
            abi: arr_views(self.abi@),
            group: match self.group {
                Some(g) => Some(g@),
                None => None,
            },
        }
    }
}

/// A partitioned collection of contract ABIs.
#[derive(Debug)]
pub struct ABICollection {
    /// Groups in order of first appearance, each with its members in order.
    pub grouped: Vec<(String, Vec<CollectedABI>)>,
    /// The artifacts without a group label, in order.
    pub ungrouped: Vec<CollectedABI>,
}

impl View for ABICollection {
    type V = SpecCollection;

    open spec fn view(&self) -> SpecCollection {
        SpecCollection {
            grouped: self.grouped@.map_values(
                |p: (String, Vec<CollectedABI>)|
                    (p.0@, p.1@.map_values(|c: CollectedABI| c@)),
            ),
            ungrouped: self.ungrouped@.map_values(|c: CollectedABI| c@),
        }
    }
}

/// One artifact file handed to the collector: where it was found, its path
/// relative to the artifacts root, and its text.
#[derive(Debug)]
pub struct ArtifactFile {
    /// The file's path as found under the artifacts root.
    pub full_path: String,
    /// The same path relative to the artifacts root.
    pub path: String,
    /// The file's contents.
    pub content: String,
}

impl View for ArtifactFile {
    type V = (Seq<char>, Seq<char>, Seq<char>);

    open spec fn view(&self) -> (Seq<char>, Seq<char>, Seq<char>) {
        (self.full_path@, self.path@, self.content@)
    }
}

/// The last `/`-separated component of a path.
pub open spec fn spec_last_component(p: Seq<char>) -> Seq<char> {
    match spec_rfind(p, '/') {
        Some(i) => p.skip(i + 1),
        None => p,
    }
}

/// The file stem: the last component up to its last `.`, except that a
/// leading `.` does not begin an extension.
pub open spec fn spec_file_stem(p: Seq<char>) -> Seq<char> {
    let c = spec_last_component(p);
    match spec_rfind(c, '.') {
        Some(j) => if j > 0 {
            c.take(j)
        } else {
            c
        },
        None => c,
    }
}

/// The extension: what follows the last `.` of the last component, absent
/// when there is none or when the only `.` is the leading character.
pub open spec fn spec_extension(p: Seq<char>) -> Option<Seq<char>> {
    let c = spec_last_component(p);
    match spec_rfind(c, '.') {
        Some(j) => if j > 0 {
            Some(c.skip(j + 1))
        } else {
            None
        },
        None => None,
    }
}

/// A candidate artifact file: a `.json` file not under a `build-info`
/// directory.
pub open spec fn spec_is_artifact_path(p: Seq<char>) -> bool {
    spec_extension(p) == Some("json"@) && !spec_contains(p, "build-info"@)
}

/// The `abi` entries of a parsed artifact document, present exactly when the
/// document parsed, has an `abi` field, and that field is a non-empty array.
pub open spec fn spec_valid_abi(artifact: Option<Json>) -> Option<Seq<Json>> {
    match artifact {
        Some(a) => match spec_lookup(a, "abi"@) {
            Some(f) => match f {
                Json::Arr(entries) => if entries.len() > 0 {
                    Some(entries)
                } else {
                    None
                },
                _ => None,
            },
            None => None,
        },
        None => None,
    }
}

/// The last component of `p`, as a slice of it.
pub fn last_component<'a>(p: &'a str) -> (r: &'a str)
    ensures
        r@ == spec_last_component(p@),
{
    let n = p.unicode_len();
    match rfind_char(p, '/') {
        Some(i) => {
            proof {
                lemma_rfind_props(p@, '/');
                assert(p@.subrange(i + 1, n as int) =~= p@.skip(i + 1));
            }
            p.substring_char(i + 1, n)
        },
        None => p,
    }
}

/// The file stem of `p`, as a slice of it.
pub fn file_stem<'a>(p: &'a str) -> (r: &'a str)
    ensures
        r@ == spec_file_stem(p@),
{
    let c = last_component(p);
    match rfind_char(c, '.') {
        Some(j) => {
            if j > 0 {
                proof {
                    lemma_rfind_props(c@, '.');
                    assert(c@.subrange(0, j as int) =~= c@.take(j as int));
                }
                c.substring_char(0, j)
            } else {
                c
            }
        },
        None => c,
    }
}

/// Is `p` a candidate artifact file path?
pub fn is_artifact_path(p: &str) -> (r: bool)
    ensures
        r == spec_is_artifact_path(p@),
{
    let c = last_component(p);
    let n = c.unicode_len();
    let has_json_ext = match rfind_char(c, '.') {
        Some(j) => {
            if j > 0 {
                proof {
                    lemma_rfind_props(c@, '.');
                    assert(c@.subrange(j + 1, n as int) =~= c@.skip(j + 1));
                }
                str_eq(c.substring_char(j + 1, n), "json")
            } else {
                false
            }
        },
        None => false,
    };
    has_json_ext && !contains_sub(p, "build-info")
}

/// Take the field named `key` out of `v`, when `v` is an object that has it.
fn take_field(v: JsonValue, key: &str) -> (r: Option<JsonValue>)
    ensures
        match r {
            Some(f) => spec_lookup(v@, key@) == Some(f@),
            None => spec_lookup(v@, key@) is None,
        },
{
    match v {
        JsonValue::Obj(mut fields) => {
            proof {
                lemma_obj_views(fields@);
            }
            let ghost fs = obj_views(fields@);
            let n = fields.len();
            let mut k: usize = 0;
            while k < n
                invariant
                    n == fields.len(),
                    k <= n,
                    fs == obj_views(fields@),
                    v@ == Json::Obj(fs),
                    fs.len() == n,
                    forall|i: int|
                        0 <= i < n ==> #[trigger] fs[i] == (fields@[i].0@, fields@[i].1@),
                    spec_obj_lookup_at(fs, key@, 0) == spec_obj_lookup_at(fs, key@, k as int),
                decreases n - k,
            {
                if str_eq(fields[k].0.as_str(), key) {
                    let pair = fields.remove(k);
                    return Some(pair.1);
                }
                k += 1;
            }
            None
        },
        _ => None,
    }
}

/// Decide whether `content` is a valid contract artifact and hand back its
/// ABI entries: the text must parse as JSON, hold an `abi` field, and that
/// field must be a non-empty array.
pub fn is_valid_artifact(content: &str) -> (r: Option<Vec<JsonValue>>)
    ensures
        match r {
            Some(abi) => spec_valid_abi(parsed_json(content@)) == Some(arr_views(abi@)) && abi@.len()
                > 0,
            None => spec_valid_abi(parsed_json(content@)) is None,
        },
{
    match crate::json::json_from_text(content) {
        Some(v) => match take_field(v, "abi") {
            Some(f) => match f {
                JsonValue::Arr(entries) => {
                    proof {
                        lemma_arr_views(entries@);
                    }
                    if entries.len() > 0 {
                        Some(entries)
                    } else {
                        None
                    }
                },
                _ => None,
            },
            None => None,
        },
        None => None,
    }
}

/// Position of group `label` in `gs`, searching from position `i`.
pub open spec fn spec_group_index_at(
    gs: Seq<(Seq<char>, Seq<SpecCollectedAbi>)>,
    label: Seq<char>,
    i: int,
) -> Option<int>
    decreases gs.len() - i,
{
    if i < 0 || i >= gs.len() {
        None
    } else if gs[i].0 == label {
        Some(i)
    } else {
        spec_group_index_at(gs, label, i + 1)
    }
}

/// What a successful or failed group search means.
pub proof fn lemma_group_index_props(
    gs: Seq<(Seq<char>, Seq<SpecCollectedAbi>)>,
    label: Seq<char>,
    i: int,
)
    requires
        0 <= i <= gs.len(),
    ensures
        match spec_group_index_at(gs, label, i) {
            Some(x) => i <= x < gs.len() && gs[x].0 == label && (forall|j: int|
                i <= j < x ==> (#[trigger] gs[j]).0 != label),
            None => forall|j: int| i <= j < gs.len() ==> (#[trigger] gs[j]).0 != label,
        },
    decreases gs.len() - i,
{
    if i < gs.len() && gs[i].0 != label {
        lemma_group_index_props(gs, label, i + 1);
    }
}

/// `c` with `e` appended to group `label`, the group being created at the end
/// when it is new.
pub open spec fn spec_group_insert(
    c: SpecCollection,
    label: Seq<char>,
    e: SpecCollectedAbi,
) -> SpecCollection {
    match spec_group_index_at(c.grouped, label, 0) {
        Some(j) => SpecCollection {
            grouped: c.grouped.update(j, (label, c.grouped[j].1.push(e))),
            ungrouped: c.ungrouped,
        },
        None => SpecCollection {
            grouped: c.grouped.push((label, seq![e])),
            ungrouped: c.ungrouped,
        },
    }
}

/// What one artifact file contributes: nothing unless it is a candidate path
/// whose content is a valid artifact; else one entry, grouped under its label
/// when the metadata yields one, ungrouped otherwise.
pub open spec fn spec_collect_file(
    c: SpecCollection,
    f: (Seq<char>, Seq<char>, Seq<char>),
    tag: Seq<char>,
) -> SpecCollection {
    if !spec_is_artifact_path(f.0) {
        c
    } else {
        match spec_valid_abi(parsed_json(f.2)) {
            None => c,
            Some(entries) => {
                let g = spec_group(parsed_json(f.2), tag);
                let e = SpecCollectedAbi {
                    name: spec_file_stem(f.1),
                    path: f.1,
                    abi: entries,
                    group: g,
                };
                match g {
                    Some(label) => spec_group_insert(c, label, e),
                    None => SpecCollection {
                        grouped: c.grouped,
                        ungrouped: c.ungrouped.push(e),
                    },
                }
            },
        }
    }
}

/// `spec_collect_file` folded over a sequence of artifact files.
pub open spec fn spec_collect_files(
    files: Seq<(Seq<char>, Seq<char>, Seq<char>)>,
    tag: Seq<char>,
    acc: SpecCollection,
) -> SpecCollection
    decreases files.len(),
{
    if files.len() == 0 {
        acc
    } else {
        spec_collect_files(files.drop_first(), tag, spec_collect_file(acc, files[0], tag))
    }
}

/// The empty collection.
pub open spec fn spec_empty_collection() -> SpecCollection {
    SpecCollection { grouped: Seq::empty(), ungrouped: Seq::empty() }
}

/// The collection built from the given artifact files under the given tag.
pub open spec fn spec_collect(
    files: Seq<(Seq<char>, Seq<char>, Seq<char>)>,
    tag: Seq<char>,
) -> SpecCollection {
    spec_collect_files(files, tag, spec_empty_collection())
}

/// Folding one more file collects the earlier files first.
pub proof fn lemma_collect_files_push(
    files: Seq<(Seq<char>, Seq<char>, Seq<char>)>,
    tag: Seq<char>,
    acc: SpecCollection,
    x: (Seq<char>, Seq<char>, Seq<char>),
)
    ensures
        spec_collect_files(files.push(x), tag, acc) == spec_collect_file(
            spec_collect_files(files, tag, acc),
            x,
            tag,
        ),
    decreases files.len(),
{
    if files.len() == 0 {
        assert(files.push(x)[0] == x);
        assert(files.push(x).drop_first() =~= files);
        assert(spec_collect_files(files.push(x), tag, acc) == spec_collect_files(
            files,
            tag,
            spec_collect_file(acc, x, tag),
        ));
        assert(spec_collect_files(files, tag, spec_collect_file(acc, x, tag))
            == spec_collect_file(acc, x, tag));
        assert(spec_collect_files(files, tag, acc) == acc);
    } else {
        lemma_collect_files_push(files.drop_first(), tag, spec_collect_file(acc, files[0], tag), x);
        assert(files.push(x).drop_first() =~= files.drop_first().push(x));
        assert(files.push(x)[0] == files[0]);
        assert(spec_collect_files(files.push(x), tag, acc) == spec_collect_files(
            files.drop_first().push(x),
            tag,
            spec_collect_file(acc, files[0], tag),
        ));
        assert(spec_collect_files(files, tag, acc) == spec_collect_files(
            files.drop_first(),
            tag,
            spec_collect_file(acc, files[0], tag),
        ));
    }
}

/// The well-formed collections: group labels are unique, every group is
/// non-empty, every grouped entry carries its group's label, every ungrouped
/// entry carries none, and every entry holds a non-empty ABI.
pub open spec fn collection_wf(c: SpecCollection) -> bool {
    &&& forall|i: int, j: int|
        0 <= i < j < c.grouped.len() ==> (#[trigger] c.grouped[i]).0 != (#[trigger] c.grouped[j]).0
    &&& forall|j: int| 0 <= j < c.grouped.len() ==> (#[trigger] c.grouped[j]).1.len() > 0
    &&& forall|j: int, k: int|
        0 <= j < c.grouped.len() && 0 <= k < c.grouped[j].1.len() ==> (#[trigger] c.grouped[j].1[k]).group
            == Some(c.grouped[j].0) && c.grouped[j].1[k].abi.len() > 0
    &&& forall|k: int|
        0 <= k < c.ungrouped.len() ==> (#[trigger] c.ungrouped[k]).group is None
            && c.ungrouped[k].abi.len() > 0
}

/// `e` stands in group `g` of `c`.
pub open spec fn in_group(c: SpecCollection, g: Seq<char>, e: SpecCollectedAbi) -> bool {
    exists|j: int, k: int|
        0 <= j < c.grouped.len() && c.grouped[j].0 == g && 0 <= k < c.grouped[j].1.len() && (
        #[trigger] c.grouped[j].1[k]) == e
}

/// `e` stands in the ungrouped partition of `c`.
pub open spec fn in_ungrouped(c: SpecCollection, e: SpecCollectedAbi) -> bool {
    exists|k: int| 0 <= k < c.ungrouped.len() && (#[trigger] c.ungrouped[k]) == e
}

/// The entry an artifact file yields, its ABI empty where the file is not a
/// valid artifact.
pub open spec fn spec_entry_of(
    f: (Seq<char>, Seq<char>, Seq<char>),
    tag: Seq<char>,
) -> SpecCollectedAbi {
    SpecCollectedAbi {
        name: spec_file_stem(f.1),
        path: f.1,
        abi: match spec_valid_abi(parsed_json(f.2)) {
            Some(entries) => entries,
            None => Seq::empty(),
        },
        group: spec_group(parsed_json(f.2), tag),
    }
}

/// Appending to a group keeps the collection well-formed, provided the entry
/// carries that group's label and a non-empty ABI.
pub proof fn lemma_group_insert_wf(c: SpecCollection, label: Seq<char>, e: SpecCollectedAbi)
    requires
        collection_wf(c),
        e.group == Some(label),
        e.abi.len() > 0,
    ensures
        collection_wf(spec_group_insert(c, label, e)),
{
    lemma_group_index_props(c.grouped, label, 0);
    let c2 = spec_group_insert(c, label, e);
    match spec_group_index_at(c.grouped, label, 0) {
        Some(j) => {
            assert(forall|i: int|
                0 <= i < c2.grouped.len() ==> (#[trigger] c2.grouped[i]).0 == c.grouped[i].0);
            assert forall|a: int, k: int|
                0 <= a < c2.grouped.len() && 0 <= k < c2.grouped[a].1.len() implies (
            #[trigger] c2.grouped[a].1[k]).group == Some(c2.grouped[a].0) && c2.grouped[a].1[k].abi.len()
                > 0 by {
                if a == j {
                    assert(c2.grouped[a].1 == c.grouped[j].1.push(e));
                    if k < c.grouped[j].1.len() {
                        assert(c2.grouped[a].1[k] == c.grouped[j].1[k]);
                    } else {
                        assert(c2.grouped[a].1[k] == e);
                    }
                } else {
                    assert(c2.grouped[a] == c.grouped[a]);
                }
            }
        },
        None => {
            assert forall|a: int, k: int|
                0 <= a < c2.grouped.len() && 0 <= k < c2.grouped[a].1.len() implies (
            #[trigger] c2.grouped[a].1[k]).group == Some(c2.grouped[a].0) && c2.grouped[a].1[k].abi.len()
                > 0 by {
                if a < c.grouped.len() {
                    assert(c2.grouped[a] == c.grouped[a]);
                } else {
                    assert(c2.grouped[a] == (label, seq![e]));
                    assert(c2.grouped[a].1[k] == e);
                }
            }
        },
    }
}

/// One collection step keeps the collection well-formed.
pub proof fn lemma_collect_file_wf(
    c: SpecCollection,
    f: (Seq<char>, Seq<char>, Seq<char>),
    tag: Seq<char>,
)
    requires
        collection_wf(c),
    ensures
        collection_wf(spec_collect_file(c, f, tag)),
{
    if spec_is_artifact_path(f.0) {
        match spec_valid_abi(parsed_json(f.2)) {
            None => {},
            Some(entries) => {
                let g = spec_group(parsed_json(f.2), tag);
                let e = SpecCollectedAbi {
                    name: spec_file_stem(f.1),
                    path: f.1,
                    abi: entries,
                    group: g,
                };
                match g {
                    Some(label) => {
                        lemma_group_insert_wf(c, label, e);
                    },
                    None => {},
                }
            },
        }
    }
}

/// The whole fold keeps the collection well-formed.
pub proof fn lemma_collect_files_wf(
    files: Seq<(Seq<char>, Seq<char>, Seq<char>)>,
    tag: Seq<char>,
    acc: SpecCollection,
)
    requires
        collection_wf(acc),
    ensures
        collection_wf(spec_collect_files(files, tag, acc)),
    decreases files.len(),
{
    if files.len() > 0 {
        lemma_collect_file_wf(acc, files[0], tag);
        lemma_collect_files_wf(files.drop_first(), tag, spec_collect_file(acc, files[0], tag));
    }
}

/// The collection built by `collect` is well-formed: in particular no entry
/// with an empty or absent ABI appears anywhere in it, and every entry lies
/// in the partition its group label demands.
pub proof fn lemma_collect_wf(files: Seq<(Seq<char>, Seq<char>, Seq<char>)>, tag: Seq<char>)
    ensures
        collection_wf(spec_collect(files, tag)),
{
    lemma_collect_files_wf(files, tag, spec_empty_collection());
}

/// One collection step never removes an entry from a group.
pub proof fn lemma_collect_file_preserves(
    c: SpecCollection,
    f: (Seq<char>, Seq<char>, Seq<char>),
    tag: Seq<char>,
    g: Seq<char>,
    e: SpecCollectedAbi,
)
    ensures
        in_group(c, g, e) ==> in_group(spec_collect_file(c, f, tag), g, e),
        in_ungrouped(c, e) ==> in_ungrouped(spec_collect_file(c, f, tag), e),
{
    let c2 = spec_collect_file(c, f, tag);
    lemma_collect_file_shape(c, f, tag);
    if in_group(c, g, e) {
        let (j, k) = choose|j: int, k: int|
            0 <= j < c.grouped.len() && c.grouped[j].0 == g && 0 <= k < c.grouped[j].1.len() && (
            #[trigger] c.grouped[j].1[k]) == e;
        assert(c2.grouped[j].0 == g && c2.grouped[j].1[k] == e);
        assert(0 <= j < c2.grouped.len() && 0 <= k < c2.grouped[j].1.len());
    }
    if in_ungrouped(c, e) {
        let k = choose|k: int| 0 <= k < c.ungrouped.len() && (#[trigger] c.ungrouped[k]) == e;
        assert(0 <= k < c2.ungrouped.len() && c2.ungrouped[k] == e);
    }
}

/// How one collection step changes the collection's shape: existing groups
/// keep their label and their members at the same positions; at most one new
/// member, group, or ungrouped entry appears, and only at the end.
pub proof fn lemma_collect_file_shape(
    c: SpecCollection,
    f: (Seq<char>, Seq<char>, Seq<char>),
    tag: Seq<char>,
)
    ensures
        ({
            let c2 = spec_collect_file(c, f, tag);
            &&& c.grouped.len() <= c2.grouped.len() <= c.grouped.len() + 1
            &&& forall|j: int|
                0 <= j < c.grouped.len() ==> (#[trigger] c2.grouped[j]).0 == c.grouped[j].0
                    && c.grouped[j].1.len() <= c2.grouped[j].1.len() <= c.grouped[j].1.len() + 1
                    && (forall|k: int|
                    0 <= k < c.grouped[j].1.len() ==> (#[trigger] c2.grouped[j].1[k])
                        == c.grouped[j].1[k])
            &&& c.ungrouped.len() <= c2.ungrouped.len() <= c.ungrouped.len() + 1
            &&& forall|k: int|
                0 <= k < c.ungrouped.len() ==> (#[trigger] c2.ungrouped[k]) == c.ungrouped[k]
        }),
{
    if spec_is_artifact_path(f.0) {
        match spec_valid_abi(parsed_json(f.2)) {
            None => {},
            Some(entries) => {
                match spec_group(parsed_json(f.2), tag) {
                    Some(label) => {
                        lemma_group_index_props(c.grouped, label, 0);
                    },
                    None => {},
                }
            },
        }
    }
}

/// The whole fold never removes an entry from a group.
pub proof fn lemma_collect_files_preserves(
    files: Seq<(Seq<char>, Seq<char>, Seq<char>)>,
    tag: Seq<char>,
    acc: SpecCollection,
    g: Seq<char>,
    e: SpecCollectedAbi,
)
    ensures
        in_group(acc, g, e) ==> in_group(spec_collect_files(files, tag, acc), g, e),
        in_ungrouped(acc, e) ==> in_ungrouped(spec_collect_files(files, tag, acc), e),
    decreases files.len(),
{
    if files.len() > 0 {
        lemma_collect_file_preserves(acc, files[0], tag, g, e);
        lemma_collect_files_preserves(
            files.drop_first(),
            tag,
            spec_collect_file(acc, files[0], tag),
            g,
            e,
        );
    }
}

/// One collection step puts the file's entry into the demanded partition.
pub proof fn lemma_collect_file_adds(
    c: SpecCollection,
    f: (Seq<char>, Seq<char>, Seq<char>),
    tag: Seq<char>,
)
    requires
        spec_is_artifact_path(f.0),
        spec_valid_abi(parsed_json(f.2)) is Some,
    ensures
        match spec_group(parsed_json(f.2), tag) {
            Some(g) => in_group(spec_collect_file(c, f, tag), g, spec_entry_of(f, tag)),
            None => in_ungrouped(spec_collect_file(c, f, tag), spec_entry_of(f, tag)),
        },
{
    let c2 = spec_collect_file(c, f, tag);
    let e = spec_entry_of(f, tag);
    match spec_group(parsed_json(f.2), tag) {
        Some(g) => {
            lemma_group_index_props(c.grouped, g, 0);
            match spec_group_index_at(c.grouped, g, 0) {
                Some(j) => {
                    let k = c.grouped[j].1.len() as int;
                    assert(0 <= j < c2.grouped.len() && c2.grouped[j].0 == g && 0 <= k
                        < c2.grouped[j].1.len() && c2.grouped[j].1[k] == e);
                },
                None => {
                    let j = c.grouped.len() as int;
                    assert(0 <= j < c2.grouped.len() && c2.grouped[j].0 == g && c2.grouped[j].1
                        == seq![e]);
                    assert(c2.grouped[j].1[0] == e);
                },
            }
        },
        None => {
            let k = c.ungrouped.len() as int;
            assert(0 <= k < c2.ungrouped.len() && c2.ungrouped[k] == e);
        },
    }
}

/// Membership through the fold: every candidate file with a valid ABI lands
/// in the demanded partition of the final collection.
pub proof fn lemma_collect_files_membership(
    files: Seq<(Seq<char>, Seq<char>, Seq<char>)>,
    tag: Seq<char>,
    acc: SpecCollection,
    i: int,
)
    requires
        0 <= i < files.len(),
        spec_is_artifact_path(files[i].0),
        spec_valid_abi(parsed_json(files[i].2)) is Some,
    ensures
        match spec_group(parsed_json(files[i].2), tag) {
            Some(g) => in_group(
                spec_collect_files(files, tag, acc),
                g,
                spec_entry_of(files[i], tag),
            ),
            None => in_ungrouped(spec_collect_files(files, tag, acc), spec_entry_of(files[i], tag)),
        },
    decreases files.len(),
{
    let e = spec_entry_of(files[i], tag);
    let step = spec_collect_file(acc, files[0], tag);
    if i == 0 {
        lemma_collect_file_adds(acc, files[0], tag);
        match spec_group(parsed_json(files[0].2), tag) {
            Some(g) => {
                lemma_collect_files_preserves(files.drop_first(), tag, step, g, e);
            },
            None => {
                lemma_collect_files_preserves(files.drop_first(), tag, step, Seq::empty(), e);
            },
        }
    } else {
        assert(files.drop_first()[i - 1] == files[i]);
        lemma_collect_files_membership(files.drop_first(), tag, step, i - 1);
    }
}

/// The partition law: an artifact whose metadata yields a group label `g`
/// appears in group `g` of the collection and not among the ungrouped
/// entries; an artifact without a label appears among the ungrouped entries
/// and in no group.
pub proof fn lemma_collect_partition(
    files: Seq<(Seq<char>, Seq<char>, Seq<char>)>,
    tag: Seq<char>,
    i: int,
)
    requires
        0 <= i < files.len(),
        spec_is_artifact_path(files[i].0),
        spec_valid_abi(parsed_json(files[i].2)) is Some,
    ensures
        match spec_group(parsed_json(files[i].2), tag) {
            Some(g) => in_group(spec_collect(files, tag), g, spec_entry_of(files[i], tag))
                && !in_ungrouped(spec_collect(files, tag), spec_entry_of(files[i], tag)),
            None => in_ungrouped(spec_collect(files, tag), spec_entry_of(files[i], tag)) && (forall|
                g: Seq<char>,
            | !in_group(spec_collect(files, tag), g, spec_entry_of(files[i], tag))),
        },
{
    lemma_collect_files_membership(files, tag, spec_empty_collection(), i);
    lemma_collect_wf(files, tag);
    let c = spec_collect(files, tag);
    let e = spec_entry_of(files[i], tag);
    match spec_group(parsed_json(files[i].2), tag) {
        Some(g) => {
            assert(e.group == Some(g));
            if in_ungrouped(c, e) {
                let k = choose|k: int| 0 <= k < c.ungrouped.len() && (#[trigger] c.ungrouped[k]) == e;
                assert(c.ungrouped[k].group is None);
                assert(false);
            }
        },
        None => {
            assert(e.group is None);
            assert forall|g: Seq<char>| !in_group(c, g, e) by {
                if in_group(c, g, e) {
                    let (j, k) = choose|j: int, k: int|
                        0 <= j < c.grouped.len() && c.grouped[j].0 == g && 0 <= k
                            < c.grouped[j].1.len() && (#[trigger] c.grouped[j].1[k]) == e;
                    assert(c.grouped[j].1[k].group == Some(c.grouped[j].0));
                    assert(false);
                }
            }
        },
    }
}

/// Every entry of the collection stems from some candidate file with a valid
/// ABI; in particular an artifact with an empty or absent ABI contributes no
/// entry at all.
pub proof fn lemma_collect_file_entries(
    c: SpecCollection,
    f: (Seq<char>, Seq<char>, Seq<char>),
    tag: Seq<char>,
    g: Seq<char>,
    e: SpecCollectedAbi,
)
    ensures
        in_group(spec_collect_file(c, f, tag), g, e) ==> in_group(c, g, e) || (
        spec_is_artifact_path(f.0) && spec_valid_abi(parsed_json(f.2)) is Some && e
            == spec_entry_of(f, tag)),
        in_ungrouped(spec_collect_file(c, f, tag), e) ==> in_ungrouped(c, e) || (
        spec_is_artifact_path(f.0) && spec_valid_abi(parsed_json(f.2)) is Some && e
            == spec_entry_of(f, tag)),
{
    let c2 = spec_collect_file(c, f, tag);
    let fresh = spec_is_artifact_path(f.0) && spec_valid_abi(parsed_json(f.2)) is Some;
    if in_group(c2, g, e) {
        let (j, k) = choose|j: int, k: int|
            0 <= j < c2.grouped.len() && c2.grouped[j].0 == g && 0 <= k < c2.grouped[j].1.len() && (
            #[trigger] c2.grouped[j].1[k]) == e;
        if fresh {
            match spec_group(parsed_json(f.2), tag) {
                Some(label) => {
                    lemma_group_index_props(c.grouped, label, 0);
                    match spec_group_index_at(c.grouped, label, 0) {
                        Some(x) => {
                            if j == x && k == c.grouped[x].1.len() {
                                assert(e == spec_entry_of(f, tag));
                            } else {
                                assert(c.grouped[j].0 == g && c.grouped[j].1[k] == e);
                                assert(in_group(c, g, e));
                            }
                        },
                        None => {
                            if j == c.grouped.len() {
                                assert(c2.grouped[j].1 == seq![spec_entry_of(f, tag)]);
                                assert(e == spec_entry_of(f, tag));
                            } else {
                                assert(c.grouped[j].0 == g && c.grouped[j].1[k] == e);
                                assert(in_group(c, g, e));
                            }
                        },
                    }
                },
                None => {
                    assert(c2.grouped == c.grouped);
                    assert(in_group(c, g, e));
                },
            }
        } else {
            assert(c2 == c);
            assert(in_group(c, g, e));
        }
    }
    if in_ungrouped(c2, e) {
        let k = choose|k: int| 0 <= k < c2.ungrouped.len() && (#[trigger] c2.ungrouped[k]) == e;
        if fresh {
            match spec_group(parsed_json(f.2), tag) {
                Some(label) => {
                    assert(c2.ungrouped == c.ungrouped);
                    assert(in_ungrouped(c, e));
                },
                None => {
                    if k == c.ungrouped.len() {
                        assert(e == spec_entry_of(f, tag));
                    } else {
                        assert(c.ungrouped[k] == e);
                        assert(in_ungrouped(c, e));
                    }
                },
            }
        } else {
            assert(c2 == c);
            assert(in_ungrouped(c, e));
        }
    }
}

/// Provenance through the fold.
pub proof fn lemma_collect_files_entries(
    files: Seq<(Seq<char>, Seq<char>, Seq<char>)>,
    tag: Seq<char>,
    acc: SpecCollection,
    g: Seq<char>,
    e: SpecCollectedAbi,
)
    ensures
        in_group(spec_collect_files(files, tag, acc), g, e) ==> in_group(acc, g, e) || (exists|
            i: int,
        |
            0 <= i < files.len() && spec_is_artifact_path((#[trigger] files[i]).0)
                && spec_valid_abi(parsed_json(files[i].2)) is Some && e == spec_entry_of(
                files[i],
                tag,
            )),
        in_ungrouped(spec_collect_files(files, tag, acc), e) ==> in_ungrouped(acc, e) || (exists|
            i: int,
        |
            0 <= i < files.len() && spec_is_artifact_path((#[trigger] files[i]).0)
                && spec_valid_abi(parsed_json(files[i].2)) is Some && e == spec_entry_of(
                files[i],
                tag,
            )),
    decreases files.len(),
{
    if files.len() > 0 {
        let step = spec_collect_file(acc, files[0], tag);
        lemma_collect_files_entries(files.drop_first(), tag, step, g, e);
        lemma_collect_file_entries(acc, files[0], tag, g, e);
        if in_group(spec_collect_files(files, tag, acc), g, e) && !in_group(acc, g, e) {
            if in_group(step, g, e) || in_ungrouped(step, e) {
            }
            if exists|i: int|
                0 <= i < files.drop_first().len() && spec_is_artifact_path(
                    (#[trigger] files.drop_first()[i]).0,
                ) && spec_valid_abi(parsed_json(files.drop_first()[i].2)) is Some && e
                    == spec_entry_of(files.drop_first()[i], tag) {
                let i = choose|i: int|
                    0 <= i < files.drop_first().len() && spec_is_artifact_path(
                        (#[trigger] files.drop_first()[i]).0,
                    ) && spec_valid_abi(parsed_json(files.drop_first()[i].2)) is Some && e
                        == spec_entry_of(files.drop_first()[i], tag);
                assert(files.drop_first()[i] == files[i + 1]);
                assert(spec_is_artifact_path(files[i + 1].0) && spec_valid_abi(
                    parsed_json(files[i + 1].2),
                ) is Some && e == spec_entry_of(files[i + 1], tag));
            } else {
                assert(in_group(step, g, e));
                assert(spec_is_artifact_path(files[0].0) && spec_valid_abi(
                    parsed_json(files[0].2),
                ) is Some && e == spec_entry_of(files[0], tag));
            }
        }
        if in_ungrouped(spec_collect_files(files, tag, acc), e) && !in_ungrouped(acc, e) {
            if exists|i: int|
                0 <= i < files.drop_first().len() && spec_is_artifact_path(
                    (#[trigger] files.drop_first()[i]).0,
                ) && spec_valid_abi(parsed_json(files.drop_first()[i].2)) is Some && e
                    == spec_entry_of(files.drop_first()[i], tag) {
                let i = choose|i: int|
                    0 <= i < files.drop_first().len() && spec_is_artifact_path(
                        (#[trigger] files.drop_first()[i]).0,
                    ) && spec_valid_abi(parsed_json(files.drop_first()[i].2)) is Some && e
                        == spec_entry_of(files.drop_first()[i], tag);
                assert(files.drop_first()[i] == files[i + 1]);
                assert(spec_is_artifact_path(files[i + 1].0) && spec_valid_abi(
                    parsed_json(files[i + 1].2),
                ) is Some && e == spec_entry_of(files[i + 1], tag));
            } else {
                assert(in_ungrouped(step, e));
                assert(spec_is_artifact_path(files[0].0) && spec_valid_abi(
                    parsed_json(files[0].2),
                ) is Some && e == spec_entry_of(files[0], tag));
            }
        }
    }
}

/// The provenance law: every entry anywhere in the collection stems from a
/// candidate artifact file whose ABI was present and non-empty.
pub proof fn lemma_collect_provenance(
    files: Seq<(Seq<char>, Seq<char>, Seq<char>)>,
    tag: Seq<char>,
    g: Seq<char>,
    e: SpecCollectedAbi,
)
    requires
        in_group(spec_collect(files, tag), g, e) || in_ungrouped(spec_collect(files, tag), e),
    ensures
        exists|i: int|
            0 <= i < files.len() && spec_is_artifact_path((#[trigger] files[i]).0)
                && spec_valid_abi(parsed_json(files[i].2)) is Some && e == spec_entry_of(
                files[i],
                tag,
            ),
{
    lemma_collect_files_entries(files, tag, spec_empty_collection(), g, e);
}

/// The determinism law: two collections built from the same artifact files
/// under the same tag are equal, with no normalization needed.
pub proof fn lemma_collect_deterministic(
    c1: SpecCollection,
    c2: SpecCollection,
    files: Seq<(Seq<char>, Seq<char>, Seq<char>)>,
    tag: Seq<char>,
)
    requires
        c1 == spec_collect(files, tag),
        c2 == spec_collect(files, tag),
    ensures
        c1 == c2,
{
}

impl ABICollection {
    /// Create an empty collection.
    pub fn new() -> (r: Self)
        ensures
            r@ == spec_empty_collection(),
    {
        let r = ABICollection { grouped: Vec::new(), ungrouped: Vec::new() };
        proof {
            assert(r@.grouped =~= spec_empty_collection().grouped);
            assert(r@.ungrouped =~= spec_empty_collection().ungrouped);
        }
        r
    }

    /// Append `e` to group `label`, creating the group when it is new.
    fn push_grouped(&mut self, label: String, e: CollectedABI)
        ensures
            final(self)@ == spec_group_insert(old(self)@, label@, e@),
    {
        let ghost gs = self@.grouped;
        let n = self.grouped.len();
        let mut k: usize = 0;
        while k < n
            invariant
                n == self.grouped.len(),
                k <= n,
                *self == *old(self),
                gs == self@.grouped,
                gs.len() == n,
                spec_group_index_at(gs, label@, 0) == spec_group_index_at(gs, label@, k as int),
            decreases n - k,
        {
            proof {
                assert(gs[k as int] == (
                    self.grouped@[k as int].0@,
                    self.grouped@[k as int].1@.map_values(|c: CollectedABI| c@),
                ));
            }
            if str_eq(self.grouped[k].0.as_str(), label.as_str()) {
                let mut pair = self.grouped.remove(k);
                pair.1.push(e);
                self.grouped.insert(k, pair);
                proof {
                    assert(self@.grouped =~~= gs.update(
                        k as int,
                        (label@, gs[k as int].1.push(e@)),
                    ));
                    assert(self@.ungrouped =~= old(self)@.ungrouped);
                }
                return ;
            }
            k += 1;
        }
        let mut members: Vec<CollectedABI> = Vec::new();
        members.push(e);
        self.grouped.push((label, members));
        proof {
            assert(members@.map_values(|c: CollectedABI| c@) =~= seq![e@]);
            assert(self@.grouped =~~= gs.push((label@, seq![e@])));
            assert(self@.ungrouped =~= old(self)@.ungrouped);
        }
    }
}

/// Build the partitioned ABI collection out of the given artifact files:
/// non-candidate paths and invalid artifacts are skipped silently, and every
/// valid artifact lands in exactly one partition, decided by its group label
/// under `tag`.
pub fn collect_from_files(files: &Vec<ArtifactFile>, tag: &str) -> (r: ABICollection)
    ensures
        r@ == spec_collect(files@.map_values(|f: ArtifactFile| f@), tag@),
        collection_wf(r@),
{
    proof {
        lemma_collect_wf(files@.map_values(|f: ArtifactFile| f@), tag@);
    }
    let ghost fviews = files@.map_values(|f: ArtifactFile| f@);
    let mut col = ABICollection::new();
    let mut k: usize = 0;
    proof {
        assert(fviews.take(0) =~= Seq::<(Seq<char>, Seq<char>, Seq<char>)>::empty());
    }
    while k < files.len()
        invariant
            k <= files.len(),
            fviews == files@.map_values(|f: ArtifactFile| f@),
            col@ == spec_collect_files(fviews.take(k as int), tag@, spec_empty_collection()),
        decreases files.len() - k,
    {
        let ghost prev = col@;
        let ghost fv = fviews[k as int];
        proof {
            assert(fv == (files@[k as int].full_path@, files@[k as int].path@, files@[k as int].content@));
        }
        if is_artifact_path(files[k].full_path.as_str()) {
            match is_valid_artifact(files[k].content.as_str()) {
                Some(abi) => {
                    let name = String::from_str(file_stem(files[k].path.as_str()));
                    let path = String::from_str(files[k].path.as_str());
                    let group = extract_group_from_metadata(files[k].content.as_str(), tag);
                    match group {
                        Some(label) => {
                            let entry = CollectedABI {
                                contract_name: name,
                                file_path: path,
                                abi,
                                group: Some(label.clone()),
                            };
                            col.push_grouped(label, entry);
                        },
                        None => {
                            let entry = CollectedABI {
                                contract_name: name,
                                file_path: path,
                                abi,
                                group: None,
                            };
                            col.ungrouped.push(entry);
                            proof {
                                assert(col@.ungrouped =~= prev.ungrouped.push(entry@));
                                assert(col@.grouped =~~= prev.grouped);
                            }
                        },
                    }
                },
                None => {},
            }
        }
        proof {
            assert(col@ == spec_collect_file(prev, fv, tag@));
            lemma_collect_files_push(fviews.take(k as int), tag@, spec_empty_collection(), fv);
            assert(fviews.take(k + 1) =~= fviews.take(k as int).push(fv));
        }
        k += 1;
    }
    proof {
        assert(fviews.take(files@.len() as int) =~= fviews);
    }
    col
}

/// The model of one collected entry read back from its JSON form: the
/// `contract_name` and `file_path` fields must be strings, `abi` must be an
/// array, and `group` must be a string, `null`, or absent.
pub open spec fn spec_entry_of_json(j: Json) -> Option<SpecCollectedAbi> {
    match spec_lookup(j, "contract_name"@) {
        Some(Json::Str(name)) => match spec_lookup(j, "file_path"@) {
            Some(Json::Str(path)) => match spec_lookup(j, "abi"@) {
                Some(Json::Arr(abi)) => match spec_lookup(j, "group"@) {
                    Some(Json::Str(g)) => Some(
                        SpecCollectedAbi { name, path, abi, group: Some(g) },
                    ),
                    Some(Json::Null) => Some(SpecCollectedAbi { name, path, abi, group: None }),
                    Some(_) => None,
                    None => Some(SpecCollectedAbi { name, path, abi, group: None }),
                },
                _ => None,
            },
            _ => None,
        },
        _ => None,
    }
}

/// The models of a JSON array of collected entries; absent as soon as one
/// element is malformed.
pub open spec fn spec_entries_of_json(a: Seq<Json>) -> Option<Seq<SpecCollectedAbi>>
    decreases a.len(),
{
    if a.len() == 0 {
        Some(Seq::empty())
    } else {
        match spec_entry_of_json(a[0]) {
            Some(e) => match spec_entries_of_json(a.drop_first()) {
                Some(rest) => Some(seq![e] + rest),
                None => None,
            },
            None => None,
        }
    }
}

/// The models of the fields of the `grouped` object, each of which must be
/// an array of collected entries.
pub open spec fn spec_groups_of_json(fields: Seq<(Seq<char>, Json)>) -> Option<
    Seq<(Seq<char>, Seq<SpecCollectedAbi>)>,
>
    decreases fields.len(),
{
    if fields.len() == 0 {
        Some(Seq::empty())
    } else {
        match fields[0].1 {
            Json::Arr(a) => match spec_entries_of_json(a) {
                Some(es) => match spec_groups_of_json(fields.drop_first()) {
                    Some(rest) => Some(seq![(fields[0].0, es)] + rest),
                    None => None,
                },
                None => None,
            },
            _ => None,
        }
    }
}

/// The model of a whole collection document: an object whose `grouped` field
/// is an object of entry arrays and whose `ungrouped` field is an entry
/// array.  Anything else is malformed.
pub open spec fn spec_collection_of_json(j: Json) -> Option<SpecCollection> {
    match spec_lookup(j, "grouped"@) {
        Some(Json::Obj(fields)) => match spec_groups_of_json(fields) {
            Some(gs) => match spec_lookup(j, "ungrouped"@) {
                Some(Json::Arr(a)) => match spec_entries_of_json(a) {
                    Some(es) => Some(SpecCollection { grouped: gs, ungrouped: es }),
                    None => None,
                },
                _ => None,
            },
            None => None,
        },
        _ => None,
    }
}

/// A search in the tail equals a search in the whole from the next position.
proof fn lemma_lookup_drop(fields: Seq<(Seq<char>, Json)>, key: Seq<char>, i: int)
    requires
        0 <= i,
        fields.len() > 0,
    ensures
        spec_obj_lookup_at(fields, key, i + 1) == spec_obj_lookup_at(fields.drop_first(), key, i),
    decreases fields.len() - i,
{
    assert(fields.drop_first().len() == fields.len() - 1);
    if i + 1 < fields.len() {
        assert(fields.drop_first()[i] == fields[i + 1]);
        if fields[i + 1].0 != key {
            lemma_lookup_drop(fields, key, i + 1);
        }
    } else {
        assert(spec_obj_lookup_at(fields, key, i + 1) is None);
        assert(spec_obj_lookup_at(fields.drop_first(), key, i) is None);
    }
}

/// Removing a field with another key leaves a lookup untouched.
proof fn lemma_lookup_after_remove(fields: Seq<(Seq<char>, Json)>, i: int, key: Seq<char>)
    requires
        0 <= i < fields.len(),
        fields[i].0 != key,
    ensures
        spec_obj_lookup_at(fields.remove(i), key, 0) == spec_obj_lookup_at(fields, key, 0),
    decreases fields.len(),
{
    if i == 0 {
        assert(fields.remove(0) =~= fields.drop_first());
        lemma_lookup_drop(fields, key, 0);
    } else {
        assert(fields.remove(i)[0] == fields[0]);
        if fields[0].0 == key {
        } else {
            lemma_lookup_after_remove(fields.drop_first(), i - 1, key);
            assert(fields.remove(i).drop_first() =~= fields.drop_first().remove(i - 1));
            lemma_lookup_drop(fields, key, 0);
            lemma_lookup_drop(fields.remove(i), key, 0);
        }
    }
}

/// Take the first field named `key` out of `fields`, handing back its value;
/// lookups for other keys are unaffected.
fn take_first(fields: &mut Vec<(String, JsonValue)>, key: &str) -> (r: Option<JsonValue>)
    ensures
        match r {
            Some(f) => spec_obj_lookup_at(obj_views(old(fields)@), key@, 0) == Some(f@),
            None => spec_obj_lookup_at(obj_views(old(fields)@), key@, 0) is None,
        },
        forall|k2: Seq<char>|
            k2 != key@ ==> #[trigger] spec_obj_lookup_at(obj_views(final(fields)@), k2, 0)
                == spec_obj_lookup_at(obj_views(old(fields)@), k2, 0),
{
    proof {
        lemma_obj_views(fields@);
    }
    let ghost fs = obj_views(fields@);
    let n = fields.len();
    let mut k: usize = 0;
    while k < n
        invariant
            n == fields.len(),
            k <= n,
            *fields == *old(fields),
            fs == obj_views(fields@),
            fs.len() == n,
            forall|i: int| 0 <= i < n ==> #[trigger] fs[i] == (fields@[i].0@, fields@[i].1@),
            spec_obj_lookup_at(fs, key@, 0) == spec_obj_lookup_at(fs, key@, k as int),
        decreases n - k,
    {
        if str_eq(fields[k].0.as_str(), key) {
            let pair = fields.remove(k);
            proof {
                lemma_obj_views(fields@);
                assert(obj_views(fields@) =~~= fs.remove(k as int));
                assert forall|k2: Seq<char>| k2 != key@ implies #[trigger] spec_obj_lookup_at(
                    obj_views(fields@),
                    k2,
                    0,
                ) == spec_obj_lookup_at(fs, k2, 0) by {
                    lemma_lookup_after_remove(fs, k as int, k2);
                }
            }
            return Some(pair.1);
        }
        k += 1;
    }
    None
}

/// Read one collected entry back from its JSON form.
fn entry_from_json(v: JsonValue) -> (r: Option<CollectedABI>)
    ensures
        match r {
            Some(e) => spec_entry_of_json(v@) == Some(e@),
            None => spec_entry_of_json(v@) is None,
        },
{
    match v {
        JsonValue::Obj(mut fields) => {
            proof {
                lemma_obj_views(fields@);
                assert(v@ == Json::Obj(obj_views(fields@)));
                reveal_strlit("contract_name");
                reveal_strlit("file_path");
                reveal_strlit("abi");
                reveal_strlit("group");
                assert("contract_name"@.len() == 13 && "file_path"@.len() == 9 && "abi"@.len() == 3
                    && "group"@.len() == 5);
            }
            let name = match take_first(&mut fields, "contract_name") {
                Some(JsonValue::Str(s)) => s,
                _ => {
                    return None;
                },
            };
            let path = match take_first(&mut fields, "file_path") {
                Some(JsonValue::Str(s)) => s,
                _ => {
                    return None;
                },
            };
            let abi = match take_first(&mut fields, "abi") {
                Some(JsonValue::Arr(a)) => a,
                _ => {
                    return None;
                },
            };
            let group = match take_first(&mut fields, "group") {
                Some(JsonValue::Str(s)) => Some(s),
                Some(JsonValue::Null) => None,
                Some(_) => {
                    return None;
                },
                None => None,
            };
            proof {
                lemma_arr_views(abi@);
            }
            Some(CollectedABI { contract_name: name, file_path: path, abi, group })
        },
        _ => None,
    }
}

/// Read a JSON array of collected entries back.
fn entries_from_json(a: Vec<JsonValue>) -> (r: Option<Vec<CollectedABI>>)
    ensures
        match r {
            Some(es) => spec_entries_of_json(arr_views(a@)) == Some(
                es@.map_values(|c: CollectedABI| c@),
            ),
            None => spec_entries_of_json(arr_views(a@)) is None,
        },
{
    proof {
        lemma_arr_views(a@);
    }
    let ghost full = arr_views(a@);
    let mut rest = a;
    let mut out: Vec<CollectedABI> = Vec::new();
    proof {
        assert(out@.map_values(|c: CollectedABI| c@) =~= Seq::<SpecCollectedAbi>::empty());
        assert(arr_views(rest@) =~= full);
    }
    loop
        invariant
            full == arr_views(a@),
            ({
                let outv = out@.map_values(|c: CollectedABI| c@);
                let remv = arr_views(rest@);
                match spec_entries_of_json(remv) {
                    Some(tail) => spec_entries_of_json(full) == Some(outv + tail),
                    None => spec_entries_of_json(full) is None,
                }
            }),
        decreases rest@.len(),
    {
        proof {
            lemma_arr_views(rest@);
        }
        if rest.len() == 0 {
            proof {
                assert(arr_views(rest@).len() == 0);
                assert(spec_entries_of_json(arr_views(rest@)) == Some(
                    Seq::<SpecCollectedAbi>::empty(),
                ));
                assert(out@.map_values(|c: CollectedABI| c@) + Seq::<SpecCollectedAbi>::empty()
                    =~= out@.map_values(|c: CollectedABI| c@));
            }
            return Some(out);
        }
        let ghost remv = arr_views(rest@);
        let ghost outv = out@.map_values(|c: CollectedABI| c@);
        let head = rest.remove(0);
        proof {
            assert(head@ == remv[0]);
            assert(arr_views(rest@) =~= remv.drop_first());
        }
        match entry_from_json(head) {
            Some(e) => {
                out.push(e);
                proof {
                    assert(out@.map_values(|c: CollectedABI| c@) =~= outv.push(e@));
                    match spec_entries_of_json(remv.drop_first()) {
                        Some(tail) => {
                            assert(spec_entries_of_json(remv) == Some(seq![e@] + tail));
                            assert(outv + (seq![e@] + tail) =~= outv.push(e@) + tail);
                        },
                        None => {},
                    }
                }
            },
            None => {
                return None;
            },
        }
    }
}

/// Read the `grouped` object back: every field must be an array of entries.
fn groups_from_json(fields: Vec<(String, JsonValue)>) -> (r: Option<
    Vec<(String, Vec<CollectedABI>)>,
>)
    ensures
        match r {
            Some(gs) => spec_groups_of_json(obj_views(fields@)) == Some(
                gs@.map_values(
                    |p: (String, Vec<CollectedABI>)|
                        (p.0@, p.1@.map_values(|c: CollectedABI| c@)),
                ),
            ),
            None => spec_groups_of_json(obj_views(fields@)) is None,
        },
{
    proof {
        lemma_obj_views(fields@);
    }
    let ghost full = obj_views(fields@);
    let mut rest = fields;
    let mut out: Vec<(String, Vec<CollectedABI>)> = Vec::new();
    proof {
        let gview = |p: (String, Vec<CollectedABI>)| (p.0@, p.1@.map_values(|c: CollectedABI| c@));
        assert(out@.map_values(gview) =~= Seq::<(Seq<char>, Seq<SpecCollectedAbi>)>::empty());
        assert(obj_views(rest@) =~= full);
    }
    loop
        invariant
            full == obj_views(fields@),
            ({
                let gview = |p: (String, Vec<CollectedABI>)|
                    (p.0@, p.1@.map_values(|c: CollectedABI| c@));
                let outv = out@.map_values(gview);
                let remv = obj_views(rest@);
                match spec_groups_of_json(remv) {
                    Some(tail) => spec_groups_of_json(full) == Some(outv + tail),
                    None => spec_groups_of_json(full) is None,
                }
            }),
        decreases rest@.len(),
    {
        proof {
            lemma_obj_views(rest@);
        }
        if rest.len() == 0 {
            proof {
                let gview = |p: (String, Vec<CollectedABI>)|
                    (p.0@, p.1@.map_values(|c: CollectedABI| c@));
                assert(obj_views(rest@).len() == 0);
                assert(spec_groups_of_json(obj_views(rest@)) == Some(
                    Seq::<(Seq<char>, Seq<SpecCollectedAbi>)>::empty(),
                ));
                assert(out@.map_values(gview) + Seq::<(Seq<char>, Seq<SpecCollectedAbi>)>::empty()
                    =~= out@.map_values(gview));
            }
            return Some(out);
        }
        let ghost remv = obj_views(rest@);
        let ghost outv = out@.map_values(
            |p: (String, Vec<CollectedABI>)| (p.0@, p.1@.map_values(|c: CollectedABI| c@)),
        );
        let head = rest.remove(0);
        proof {
            assert((head.0@, head.1@) == remv[0]);
            assert(obj_views(rest@) =~~= remv.drop_first());
        }
        match head.1 {
            JsonValue::Arr(a) => {
                match entries_from_json(a) {
                    Some(es) => {
                        let ghost esv = es@.map_values(|c: CollectedABI| c@);
                        out.push((head.0, es));
                        proof {
                            let gview = |p: (String, Vec<CollectedABI>)|
                                (p.0@, p.1@.map_values(|c: CollectedABI| c@));
                            assert(out@.map_values(gview) =~~= outv.push((head.0@, esv)));
                            match spec_groups_of_json(remv.drop_first()) {
                                Some(tail) => {
                                    assert(spec_groups_of_json(remv) == Some(
                                        seq![(head.0@, esv)] + tail,
                                    ));
                                    assert(outv + (seq![(head.0@, esv)] + tail) =~~= outv.push(
                                        (head.0@, esv),
                                    ) + tail);
                                },
                                None => {},
                            }
                        }
                    },
                    None => {
                        return None;
                    },
                }
            },
            _ => {
                return None;
            },
        }
    }
}

/// Read a whole collection back from its parsed JSON form, as
/// [`spec_collection_of_json`] describes.
pub fn collection_from_json(v: JsonValue) -> (r: Option<ABICollection>)
    ensures
        match r {
            Some(c) => spec_collection_of_json(v@) == Some(c@),
            None => spec_collection_of_json(v@) is None,
        },
{
    match v {
        JsonValue::Obj(mut fields) => {
            proof {
                lemma_obj_views(fields@);
                assert(v@ == Json::Obj(obj_views(fields@)));
                reveal_strlit("grouped");
                reveal_strlit("ungrouped");
                assert("grouped"@.len() == 7 && "ungrouped"@.len() == 9);
            }
            let grouped_fields = match take_first(&mut fields, "grouped") {
                Some(JsonValue::Obj(gf)) => gf,
                _ => {
                    return None;
                },
            };
            let ungrouped_arr = match take_first(&mut fields, "ungrouped") {
                Some(JsonValue::Arr(a)) => a,
                _ => {
                    return None;
                },
            };
            let grouped = match groups_from_json(grouped_fields) {
                Some(gs) => gs,
                None => {
                    return None;
                },
            };
            let ungrouped = match entries_from_json(ungrouped_arr) {
                Some(es) => es,
                None => {
                    return None;
                },
            };
            Some(ABICollection { grouped, ungrouped })
        },
        _ => None,
    }
}

/// The canonical JSON form of one collected entry.
pub open spec fn spec_entry_json(e: SpecCollectedAbi) -> Json {
    Json::Obj(
        seq![
            ("contract_name"@, Json::Str(e.name)),
            ("file_path"@, Json::Str(e.path)),
            ("abi"@, Json::Arr(e.abi)),
            (
                "group"@,
                match e.group {
                    Some(g) => Json::Str(g),
                    None => Json::Null,
                },
            ),
        ],
    )
}

/// The canonical JSON forms of a sequence of entries.
pub open spec fn spec_entries_json(es: Seq<SpecCollectedAbi>) -> Seq<Json> {
    es.map_values(|e: SpecCollectedAbi| spec_entry_json(e))
}

/// The canonical JSON form of a whole collection: the on-disk interchange
/// format between collecting and serving.
pub open spec fn spec_collection_json(c: SpecCollection) -> Json {
    Json::Obj(
        seq![
            (
                "grouped"@,
                Json::Obj(
                    c.grouped.map_values(
                        |p: (Seq<char>, Seq<SpecCollectedAbi>)|
                            (p.0, Json::Arr(spec_entries_json(p.1))),
                    ),
                ),
            ),
            ("ungrouped"@, Json::Arr(spec_entries_json(c.ungrouped))),
        ],
    )
}

/// One entry in its canonical JSON form.
fn entry_to_json(e: &CollectedABI) -> (r: JsonValue)
    ensures
        r@ == spec_entry_json(e@),
{
    let mut abi_items: Vec<JsonValue> = Vec::new();
    let n = e.abi.len();
    let mut i: usize = 0;
    while i < n
        invariant
            n == e.abi.len(),
            i <= n,
            abi_items@.len() == i,
            forall|j: int| 0 <= j < i ==> #[trigger] abi_items@[j]@ == e.abi@[j]@,
        decreases n - i,
    {
        abi_items.push(e.abi[i].deep_clone());
        i += 1;
    }
    let mut fields: Vec<(String, JsonValue)> = Vec::new();
    fields.push((String::from_str("contract_name"), JsonValue::Str(e.contract_name.clone())));
    fields.push((String::from_str("file_path"), JsonValue::Str(e.file_path.clone())));
    fields.push((String::from_str("abi"), JsonValue::Arr(abi_items)));
    match &e.group {
        Some(g) => fields.push((String::from_str("group"), JsonValue::Str(g.clone()))),
        None => fields.push((String::from_str("group"), JsonValue::Null)),
    }
    let r = JsonValue::Obj(fields);
    proof {
        lemma_obj_views(fields@);
        lemma_arr_views(fields@[2].1->Arr_0@);
        lemma_arr_views(e.abi@);
        assert(arr_views(fields@[2].1->Arr_0@) =~= e@.abi);
        assert(r@->Obj_0 =~~= spec_entry_json(e@)->Obj_0);
    }
    r
}

/// A whole collection in its canonical JSON form, ready to be written out.
pub fn collection_to_json(c: &ABICollection) -> (r: JsonValue)
    ensures
        r@ == spec_collection_json(c@),
{
    let ghost cv = c@;
    let mut group_fields: Vec<(String, JsonValue)> = Vec::new();
    let gn = c.grouped.len();
    let mut j: usize = 0;
    while j < gn
        invariant
            gn == c.grouped.len(),
            cv == c@,
            cv.grouped.len() == gn,
            j <= gn,
            group_fields@.len() == j,
            forall|x: int|
                0 <= x < j ==> #[trigger] group_fields@[x].0@ == cv.grouped[x].0
                    && group_fields@[x].1@ == Json::Arr(spec_entries_json(cv.grouped[x].1)),
        decreases gn - j,
    {
        proof {
            assert(cv.grouped[j as int] == (
                c.grouped@[j as int].0@,
                c.grouped@[j as int].1@.map_values(|e: CollectedABI| e@),
            ));
        }
        let members = &c.grouped[j].1;
        let mut items: Vec<JsonValue> = Vec::new();
        let mn = members.len();
        let mut t: usize = 0;
        while t < mn
            invariant
                mn == members.len(),
                t <= mn,
                items@.len() == t,
                forall|x: int|
                    0 <= x < t ==> #[trigger] items@[x]@ == spec_entry_json(members@[x]@),
            decreases mn - t,
        {
            items.push(entry_to_json(&members[t]));
            t += 1;
        }
        let ghost items_snapshot = items@;
        let ghost gf_before = group_fields@;
        group_fields.push((c.grouped[j].0.clone(), JsonValue::Arr(items)));
        proof {
            lemma_arr_views(items_snapshot);
            assert(spec_entries_json(cv.grouped[j as int].1).len() == cv.grouped[j as int].1.len());
            assert(arr_views(items_snapshot) =~= spec_entries_json(cv.grouped[j as int].1));
            assert(group_fields@[j as int].1 == JsonValue::Arr(items));
            assert(group_fields@[j as int].1@ == Json::Arr(arr_views(items_snapshot)));
            assert(group_fields@[j as int].0@ == cv.grouped[j as int].0);
            assert(group_fields@[j as int].1@ == Json::Arr(
                spec_entries_json(cv.grouped[j as int].1),
            ));
            assert forall|x: int| 0 <= x < j + 1 implies #[trigger] group_fields@[x].0@
                == cv.grouped[x].0 && group_fields@[x].1@ == Json::Arr(
                spec_entries_json(cv.grouped[x].1),
            ) by {
                if x < j {
                    assert(group_fields@[x] == gf_before[x]);
                    assert(gf_before[x].0@ == cv.grouped[x].0);
                    assert(gf_before[x].1@ == Json::Arr(spec_entries_json(cv.grouped[x].1)));
                }
            }
        }
        j += 1;
    }
    let mut ung_items: Vec<JsonValue> = Vec::new();
    let un = c.ungrouped.len();
    let mut t: usize = 0;
    while t < un
        invariant
            un == c.ungrouped.len(),
            cv == c@,
            t <= un,
            ung_items@.len() == t,
            forall|x: int|
                0 <= x < t ==> #[trigger] ung_items@[x]@ == spec_entry_json(c.ungrouped@[x]@),
        decreases un - t,
    {
        ung_items.push(entry_to_json(&c.ungrouped[t]));
        t += 1;
    }
    let mut fields: Vec<(String, JsonValue)> = Vec::new();
    fields.push((String::from_str("grouped"), JsonValue::Obj(group_fields)));
    fields.push((String::from_str("ungrouped"), JsonValue::Arr(ung_items)));
    let r = JsonValue::Obj(fields);
    proof {
        lemma_obj_views(fields@);
        lemma_obj_views(group_fields@);
        lemma_arr_views(ung_items@);
        assert(obj_views(group_fields@) =~~= cv.grouped.map_values(
            |p: (Seq<char>, Seq<SpecCollectedAbi>)| (p.0, Json::Arr(spec_entries_json(p.1))),
        ));
        assert(arr_views(ung_items@) =~= spec_entries_json(cv.ungrouped));
        assert(r@->Obj_0 =~~= spec_collection_json(cv)->Obj_0);
    }
    r
}

/// One entry survives the trip through its JSON form unchanged.
pub proof fn lemma_entry_round_trip(e: SpecCollectedAbi)
    ensures
        spec_entry_of_json(spec_entry_json(e)) == Some(e),
{
    reveal_strlit("contract_name");
    reveal_strlit("file_path");
    reveal_strlit("abi");
    reveal_strlit("group");
    assert("contract_name"@.len() == 13 && "file_path"@.len() == 9 && "abi"@.len() == 3
        && "group"@.len() == 5);
    let fs = spec_entry_json(e)->Obj_0;
    assert(fs[0] == ("contract_name"@, Json::Str(e.name)));
    assert(fs[1] == ("file_path"@, Json::Str(e.path)));
    assert(fs[2] == ("abi"@, Json::Arr(e.abi)));
    assert(fs[3].0 == "group"@);
    assert(spec_obj_lookup_at(fs, "contract_name"@, 0) == Some(Json::Str(e.name)));
    assert(spec_obj_lookup_at(fs, "file_path"@, 0) == spec_obj_lookup_at(fs, "file_path"@, 1));
    assert(spec_obj_lookup_at(fs, "file_path"@, 1) == Some(Json::Str(e.path)));
    assert(spec_obj_lookup_at(fs, "abi"@, 0) == spec_obj_lookup_at(fs, "abi"@, 1));
    assert(spec_obj_lookup_at(fs, "abi"@, 1) == spec_obj_lookup_at(fs, "abi"@, 2));
    assert(spec_obj_lookup_at(fs, "abi"@, 2) == Some(Json::Arr(e.abi)));
    assert(spec_obj_lookup_at(fs, "group"@, 0) == spec_obj_lookup_at(fs, "group"@, 1));
    assert(spec_obj_lookup_at(fs, "group"@, 1) == spec_obj_lookup_at(fs, "group"@, 2));
    assert(spec_obj_lookup_at(fs, "group"@, 2) == spec_obj_lookup_at(fs, "group"@, 3));
    assert(spec_obj_lookup_at(fs, "group"@, 3) == Some(fs[3].1));
    match spec_entry_of_json(spec_entry_json(e)) {
        Some(e2) => {
            assert(e2.name == e.name && e2.path == e.path && e2.abi == e.abi && e2.group
                == e.group);
        },
        None => {
            assert(false);
        },
    }
}

/// A sequence of entries survives the trip through its JSON form unchanged.
pub proof fn lemma_entries_round_trip(es: Seq<SpecCollectedAbi>)
    ensures
        spec_entries_of_json(spec_entries_json(es)) == Some(es),
    decreases es.len(),
{
    if es.len() == 0 {
        assert(spec_entries_json(es) =~= Seq::<Json>::empty());
    } else {
        lemma_entry_round_trip(es[0]);
        lemma_entries_round_trip(es.drop_first());
        assert(spec_entries_json(es)[0] == spec_entry_json(es[0]));
        assert(spec_entries_json(es).drop_first() =~= spec_entries_json(es.drop_first()));
        assert(seq![es[0]] + es.drop_first() =~= es);
    }
}

/// The grouped partition survives the trip through its JSON form unchanged.
pub proof fn lemma_groups_round_trip(gs: Seq<(Seq<char>, Seq<SpecCollectedAbi>)>)
    ensures
        spec_groups_of_json(
            gs.map_values(
                |p: (Seq<char>, Seq<SpecCollectedAbi>)| (p.0, Json::Arr(spec_entries_json(p.1))),
            ),
        ) == Some(gs),
    decreases gs.len(),
{
    let mapped = gs.map_values(
        |p: (Seq<char>, Seq<SpecCollectedAbi>)| (p.0, Json::Arr(spec_entries_json(p.1))),
    );
    if gs.len() == 0 {
        assert(mapped =~= Seq::<(Seq<char>, Json)>::empty());
    } else {
        lemma_entries_round_trip(gs[0].1);
        lemma_groups_round_trip(gs.drop_first());
        assert(mapped[0] == (gs[0].0, Json::Arr(spec_entries_json(gs[0].1))));
        assert(mapped.drop_first() =~= gs.drop_first().map_values(
            |p: (Seq<char>, Seq<SpecCollectedAbi>)| (p.0, Json::Arr(spec_entries_json(p.1))),
        ));
        assert(seq![gs[0]] + gs.drop_first() =~= gs);
    }
}

/// The interchange law: a collection written in its canonical JSON form and
/// read back is the same collection, structure for structure.
pub proof fn lemma_collection_round_trip(c: SpecCollection)
    ensures
        spec_collection_of_json(spec_collection_json(c)) == Some(c),
{
    reveal_strlit("grouped");
    reveal_strlit("ungrouped");
    assert("grouped"@.len() == 7 && "ungrouped"@.len() == 9);
    let fs = spec_collection_json(c)->Obj_0;
    assert(fs[0] == (
        "grouped"@,
        Json::Obj(
            c.grouped.map_values(
                |p: (Seq<char>, Seq<SpecCollectedAbi>)| (p.0, Json::Arr(spec_entries_json(p.1))),
            ),
        ),
    ));
    assert(fs[1] == ("ungrouped"@, Json::Arr(spec_entries_json(c.ungrouped))));
    assert(spec_obj_lookup_at(fs, "grouped"@, 0) == Some(fs[0].1));
    assert(spec_obj_lookup_at(fs, "ungrouped"@, 0) == spec_obj_lookup_at(fs, "ungrouped"@, 1));
    assert(spec_obj_lookup_at(fs, "ungrouped"@, 1) == Some(fs[1].1));
    lemma_groups_round_trip(c.grouped);
    lemma_entries_round_trip(c.ungrouped);
    match spec_collection_of_json(spec_collection_json(c)) {
        Some(c2) => {
            assert(c2.grouped == c.grouped && c2.ungrouped == c.ungrouped);
        },
        None => {
            assert(false);
        },
    }
}

/// Parse the persisted collection document.  The text must be valid JSON of
/// the collection's shape; a malformed document is a fatal error, unlike the
/// per-artifact filtering of `collect_from_files`.
pub fn parse_collection(text: &str) -> (r: Result<ABICollection, crate::errors::ReflectionsError>)
    ensures
        match r {
            Ok(c) => parsed_json(text@) matches Some(j) && spec_collection_of_json(j) == Some(c@),
            Err(e) => (match parsed_json(text@) {
                Some(j) => spec_collection_of_json(j) is None,
                None => true,
            }) && e is InvalidData,
        },
{
    match crate::json::json_from_text(text) {
        Some(v) => match collection_from_json(v) {
            Some(c) => Ok(c),
            None => Err(
                crate::errors::ReflectionsError::InvalidData(
                    String::from_str("the collection document has an unexpected shape"),
                ),
            ),
        },
        None => Err(
            crate::errors::ReflectionsError::InvalidData(
                String::from_str("the collection document is not valid JSON"),
            ),
        ),
    }
}

} // verus!

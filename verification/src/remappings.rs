//! Import-path remappings: longest-prefix path rewriting and textual
//! rewriting of `import` statements in Solidity sources.

use vstd::prelude::*;
use vstd::string::*;
use crate::text::{
    find_char, find_char_from, lemma_find_at_props, lemma_join_push, spec_find, spec_find_at,
    spec_join, spec_split, spec_trim, split_char, starts_with, str_eq, trim,
};

verus! {

/// A set of import remappings.
///
/// Pairs are kept in insertion order and keys are unique.  When several
/// prefixes of maximal length match a path, the one added first wins; this
/// replaces the order-dependent tie behavior a hash map would give.
#[derive(Debug, Clone)]
pub struct Remappings {
    /// Pairs of import prefix and replacement path.
    pub mappings: Vec<(String, String)>,
}

impl View for Remappings {
    type V = Seq<(Seq<char>, Seq<char>)>;

    open spec fn view(&self) -> Seq<(Seq<char>, Seq<char>)> {
        self.mappings@.map_values(|p: (String, String)| (p.0@, p.1@))
    }
}

/// Keys of the pair sequence are pairwise distinct.
pub open spec fn keys_unique(m: Seq<(Seq<char>, Seq<char>)>) -> bool {
    forall|i: int, j: int| 0 <= i < j < m.len() ==> (#[trigger] m[i]).0 != (#[trigger] m[j]).0
}

/// Position of key `k` in `m`, searching from position `i`.
pub open spec fn spec_key_index_at(m: Seq<(Seq<char>, Seq<char>)>, k: Seq<char>, i: int) -> Option<
    int,
>
    decreases m.len() - i,
{
    if i < 0 || i >= m.len() {
        None
    } else if m[i].0 == k {
        Some(i)
    } else {
        spec_key_index_at(m, k, i + 1)
    }
}

/// Position of key `k` in `m`.
pub open spec fn spec_key_index(m: Seq<(Seq<char>, Seq<char>)>, k: Seq<char>) -> Option<int> {
    spec_key_index_at(m, k, 0)
}

/// What a successful or failed key search means.
pub proof fn lemma_key_index_props(m: Seq<(Seq<char>, Seq<char>)>, k: Seq<char>, i: int)
    requires
        0 <= i <= m.len(),
    ensures
        match spec_key_index_at(m, k, i) {
            Some(x) => i <= x < m.len() && m[x].0 == k && (forall|j: int|
                i <= j < x ==> (#[trigger] m[j]).0 != k),
            None => forall|j: int| i <= j < m.len() ==> (#[trigger] m[j]).0 != k,
        },
    decreases m.len() - i,
{
    if i < m.len() && m[i].0 != k {
        lemma_key_index_props(m, k, i + 1);
    }
}

/// `m` with key `k` bound to `v`: replaces the existing binding, else appends.
pub open spec fn spec_map_set(
    m: Seq<(Seq<char>, Seq<char>)>,
    k: Seq<char>,
    v: Seq<char>,
) -> Seq<(Seq<char>, Seq<char>)> {
    match spec_key_index(m, k) {
        Some(i) => m.update(i, (k, v)),
        None => m.push((k, v)),
    }
}

/// Setting a key keeps the keys unique.
pub proof fn lemma_map_set_keys_unique(m: Seq<(Seq<char>, Seq<char>)>, k: Seq<char>, v: Seq<char>)
    requires
        keys_unique(m),
    ensures
        keys_unique(spec_map_set(m, k, v)),
{
    lemma_key_index_props(m, k, 0);
    match spec_key_index(m, k) {
        Some(i) => {
            let m2 = m.update(i, (k, v));
            assert forall|a: int, b: int| 0 <= a < b < m2.len() implies (#[trigger] m2[a]).0 != (
            #[trigger] m2[b]).0 by {
                assert(m[i].0 == k);
                assert(m2[a].0 == if a == i {
                    k
                } else {
                    m[a].0
                });
                assert(m2[b].0 == if b == i {
                    k
                } else {
                    m[b].0
                });
            }
        },
        None => {
            let m2 = m.push((k, v));
            assert forall|a: int, b: int| 0 <= a < b < m2.len() implies (#[trigger] m2[a]).0 != (
            #[trigger] m2[b]).0 by {
                if b < m.len() {
                    assert(m2[a] == m[a] && m2[b] == m[b]);
                } else {
                    assert(m2[b] == (k, v) && m2[a] == m[a]);
                }
            }
        },
    }
}

/// Index of the winning remapping for `path`: the longest prefix of `path`
/// among the keys, the earliest added winning ties.
pub open spec fn spec_best_match(m: Seq<(Seq<char>, Seq<char>)>, path: Seq<char>) -> Option<int>
    decreases m.len(),
{
    if m.len() == 0 {
        None
    } else {
        let prev = spec_best_match(m.drop_last(), path);
        let last = m.len() - 1;
        if m[last].0.is_prefix_of(path) && (match prev {
            None => true,
            Some(i) => m[last].0.len() > m[i].0.len(),
        }) {
            Some(last)
        } else {
            prev
        }
    }
}

/// The winning remapping is a matching prefix of maximal length; when no key
/// matches, there is no winner.  This is the longest-prefix rule.
pub proof fn lemma_best_match_longest(m: Seq<(Seq<char>, Seq<char>)>, path: Seq<char>)
    ensures
        match spec_best_match(m, path) {
            Some(i) => 0 <= i < m.len() && m[i].0.is_prefix_of(path) && (forall|j: int|
                0 <= j < m.len() && (#[trigger] m[j]).0.is_prefix_of(path) ==> m[j].0.len()
                    <= m[i].0.len()),
            None => forall|j: int| 0 <= j < m.len() ==> !(#[trigger] m[j]).0.is_prefix_of(path),
        },
    decreases m.len(),
{
    if m.len() > 0 {
        lemma_best_match_longest(m.drop_last(), path);
        assert(forall|j: int|
            0 <= j < m.len() - 1 ==> #[trigger] m[j] == m.drop_last()[j]);
    }
}

/// The remapped form of `path`: the winning key's replacement followed by the
/// rest of `path`, or `path` itself when no key is a prefix of it.
pub open spec fn spec_remap(m: Seq<(Seq<char>, Seq<char>)>, path: Seq<char>) -> Seq<char> {
    match spec_best_match(m, path) {
        Some(i) => m[i].1 + path.skip(m[i].0.len() as int),
        None => path,
    }
}

/// A line whose trimmed form begins an import statement.
pub open spec fn is_import_line(line: Seq<char>) -> bool {
    "import "@.is_prefix_of(spec_trim(line))
}

/// One line of `process_imports`: on an import line with a quoted path, the
/// quoted path is remapped in place; every other line is left unchanged.
pub open spec fn spec_process_line(m: Seq<(Seq<char>, Seq<char>)>, line: Seq<char>) -> Seq<char> {
    if is_import_line(line) {
        match spec_find(line, '"') {
            Some(a) => match spec_find_at(line, '"', a + 1) {
                Some(e) => line.take(a + 1) + spec_remap(m, line.subrange(a + 1, e)) + line.skip(e),
                None => line,
            },
            None => line,
        }
    } else {
        line
    }
}

/// `process_imports` over the whole text: every `'\n'`-separated line is
/// processed on its own and the lines are joined back together.
pub open spec fn spec_process_imports(
    m: Seq<(Seq<char>, Seq<char>)>,
    content: Seq<char>,
) -> Seq<char> {
    spec_join(
        spec_split(content, '\n').map_values(|line: Seq<char>| spec_process_line(m, line)),
        '\n',
    )
}

/// A non-import line is passed through unchanged.
pub proof fn lemma_process_line_non_import(m: Seq<(Seq<char>, Seq<char>)>, line: Seq<char>)
    requires
        !is_import_line(line),
    ensures
        spec_process_line(m, line) == line,
{
}

/// Text without a single import line is passed through byte-identical.
pub proof fn lemma_process_imports_no_imports(m: Seq<(Seq<char>, Seq<char>)>, content: Seq<char>)
    requires
        forall|i: int|
            0 <= i < spec_split(content, '\n').len() ==> !is_import_line(
                #[trigger] spec_split(content, '\n')[i],
            ),
    ensures
        spec_process_imports(m, content) == content,
{
    let parts = spec_split(content, '\n');
    let mapped = parts.map_values(|line: Seq<char>| spec_process_line(m, line));
    assert(mapped =~= parts);
    crate::text::lemma_join_split(content, '\n');
}

/// Text that ends with a newline is processed into text that ends with a
/// newline.
pub proof fn lemma_process_imports_trailing_newline(
    m: Seq<(Seq<char>, Seq<char>)>,
    content: Seq<char>,
)
    requires
        content.len() > 0,
        content.last() == '\n',
    ensures
        spec_process_imports(m, content).len() > 0,
        spec_process_imports(m, content).last() == '\n',
{
    let parts = spec_split(content, '\n');
    let mapped = parts.map_values(|line: Seq<char>| spec_process_line(m, line));
    crate::text::lemma_split_last_empty(content, '\n');
    assert(mapped.last() == spec_process_line(m, parts.last()));
    reveal_strlit("import ");
    assert("import "@.len() == 7);
    assert(!is_import_line(Seq::<char>::empty()));
    assert(spec_process_line(m, Seq::<char>::empty()) == Seq::<char>::empty());
    crate::text::lemma_join_last_empty(mapped, '\n');
}

/// One accumulated parsing step of `Remappings::parse`: blank lines and
/// comment lines are skipped; a line with `=` binds the trimmed left side to
/// the trimmed right side.
pub open spec fn spec_parse_line(
    acc: Seq<(Seq<char>, Seq<char>)>,
    line: Seq<char>,
) -> Seq<(Seq<char>, Seq<char>)> {
    let t = spec_trim(line);
    if t.len() == 0 || t[0] == '#' {
        acc
    } else {
        match spec_find(t, '=') {
            Some(i) => spec_map_set(acc, spec_trim(t.take(i)), spec_trim(t.skip(i + 1))),
            None => acc,
        }
    }
}

/// `spec_parse_line` folded over a sequence of lines.
pub open spec fn spec_parse_lines(
    lines: Seq<Seq<char>>,
    acc: Seq<(Seq<char>, Seq<char>)>,
) -> Seq<(Seq<char>, Seq<char>)>
    decreases lines.len(),
{
    if lines.len() == 0 {
        acc
    } else {
        spec_parse_lines(lines.drop_first(), spec_parse_line(acc, lines[0]))
    }
}

/// The mappings parsed out of a remappings file's text.
pub open spec fn spec_parse(content: Seq<char>) -> Seq<(Seq<char>, Seq<char>)> {
    spec_parse_lines(spec_split(content, '\n'), Seq::empty())
}

/// Folding one more line parses the accumulated lines first.
pub proof fn lemma_parse_lines_push(
    lines: Seq<Seq<char>>,
    acc: Seq<(Seq<char>, Seq<char>)>,
    x: Seq<char>,
)
    ensures
        spec_parse_lines(lines.push(x), acc) == spec_parse_line(spec_parse_lines(lines, acc), x),
    decreases lines.len(),
{
    if lines.len() == 0 {
        assert(lines.push(x)[0] == x);
        assert(lines.push(x).drop_first() =~= lines);
        assert(spec_parse_lines(lines.push(x), acc) == spec_parse_lines(
            lines,
            spec_parse_line(acc, x),
        ));
        assert(spec_parse_lines(lines, spec_parse_line(acc, x)) == spec_parse_line(acc, x));
        assert(spec_parse_lines(lines, acc) == acc);
    } else {
        lemma_parse_lines_push(lines.drop_first(), spec_parse_line(acc, lines[0]), x);
        assert(lines.push(x).drop_first() =~= lines.drop_first().push(x));
        assert(lines.push(x)[0] == lines[0]);
        assert(spec_parse_lines(lines.push(x), acc) == spec_parse_lines(
            lines.drop_first().push(x),
            spec_parse_line(acc, lines[0]),
        ));
        assert(spec_parse_lines(lines, acc) == spec_parse_lines(
            lines.drop_first(),
            spec_parse_line(acc, lines[0]),
        ));
    }
}

/// Parsing keeps the keys unique.
pub proof fn lemma_parse_lines_keys_unique(lines: Seq<Seq<char>>, acc: Seq<(Seq<char>, Seq<char>)>)
    requires
        keys_unique(acc),
    ensures
        keys_unique(spec_parse_lines(lines, acc)),
    decreases lines.len(),
{
    if lines.len() > 0 {
        let t = spec_trim(lines[0]);
        if !(t.len() == 0 || t[0] == '#') {
            match spec_find(t, '=') {
                Some(i) => {
                    lemma_map_set_keys_unique(acc, spec_trim(t.take(i)), spec_trim(t.skip(i + 1)));
                },
                None => {},
            }
        }
        lemma_parse_lines_keys_unique(lines.drop_first(), spec_parse_line(acc, lines[0]));
    }
}

impl Remappings {
    /// The structural invariant: no import prefix is bound twice.
    pub open spec fn wf(&self) -> bool {
        keys_unique(self@)
    }

    /// Create a new empty set of remappings.
    pub fn new() -> (r: Self)
        ensures
            r@ == Seq::<(Seq<char>, Seq<char>)>::empty(),
            r.wf(),
    {
        Self::default()
    }

    /// Parse remappings from the text of a remappings file.  Every line has
    /// the shape `prefix=replacement`; blank lines and `#` comments are
    /// skipped, and a later binding of a prefix replaces an earlier one.
    pub fn parse(content: &str) -> (r: Result<Self, crate::errors::ReflectionsError>)
        ensures
            r matches Ok(rm) && rm@ == spec_parse(content@) && rm.wf(),
    {
        let lines = split_char(content, '\n');
        let ghost lviews = lines@.map_values(|p: String| p@);
        let mut rm = Remappings::new();
        let mut k: usize = 0;
        proof {
            assert(lviews.take(0) =~= Seq::<Seq<char>>::empty());
        }
        while k < lines.len()
            invariant
                k <= lines.len(),
                lviews == lines@.map_values(|p: String| p@),
                rm@ == spec_parse_lines(lviews.take(k as int), Seq::empty()),
                rm.wf(),
            decreases lines.len() - k,
        {
            let line = trim(lines[k].as_str());
            let ghost prev = rm@;
            let n = line.unicode_len();
            if n == 0 || line.get_char(0) == '#' {
                // skipped line
            } else {
                match find_char(line, '=') {
                    Some(i) => {
                        proof {
                            lemma_find_at_props(line@, '=', 0);
                        }
                        let from = trim(line.substring_char(0, i));
                        let to = trim(line.substring_char(i + 1, n));
                        rm.add(from, to);
                        proof {
                            assert(line@.take(i as int) =~= line@.subrange(0, i as int));
                            assert(line@.skip(i + 1) =~= line@.subrange(i + 1, n as int));
                        }
                    },
                    None => {
                        // no binding on this line
                    },
                }
            }
            proof {
                assert(lviews[k as int] == lines@[k as int]@);
                assert(rm@ == spec_parse_line(prev, lviews[k as int]));
                lemma_parse_lines_push(lviews.take(k as int), Seq::empty(), lviews[k as int]);
                assert(lviews.take(k + 1) =~= lviews.take(k as int).push(lviews[k as int]));
            }
            k += 1;
        }
        proof {
            assert(lviews.take(lines@.len() as int) =~= lviews);
        }
        Ok(rm)
    }

    /// Add a remapping; a prefix that is already bound is rebound.
    pub fn add(&mut self, from: &str, to: &str)
        requires
            old(self).wf(),
        ensures
            final(self)@ == spec_map_set(old(self)@, from@, to@),
            final(self).wf(),
    {
        let n = self.mappings.len();
        let mut k: usize = 0;
        while k < n
            invariant
                n == self.mappings.len(),
                k <= n,
                self.wf(),
                self@ == old(self)@,
                self.mappings@ == old(self).mappings@,
                spec_key_index(self@, from@) == spec_key_index_at(self@, from@, k as int),
            decreases n - k,
        {
            proof {
                assert(self@[k as int] == (self.mappings@[k as int].0@, self.mappings@[k as int].1@));
            }
            if str_eq(self.mappings[k].0.as_str(), from) {
                let ghost before = self@;
                self.mappings.remove(k);
                self.mappings.insert(k, (String::from_str(from), String::from_str(to)));
                proof {
                    assert(self@ =~= before.update(k as int, (from@, to@)));
                    lemma_map_set_keys_unique(before, from@, to@);
                }
                return ;
            }
            k += 1;
        }
        let ghost before = self@;
        self.mappings.push((String::from_str(from), String::from_str(to)));
        proof {
            assert(self@ =~= before.push((from@, to@)));
            lemma_map_set_keys_unique(before, from@, to@);
        }
    }

    /// Rewrite `import_path` through the remappings: the longest prefix that
    /// matches is replaced by its binding; ties go to the prefix added first;
    /// a path no prefix matches is returned unchanged.
    pub fn remap(&self, import_path: &str) -> (r: String)
        ensures
            r@ == spec_remap(self@, import_path@),
    {
        let n = self.mappings.len();
        let mut best: usize = 0;
        let mut best_len: usize = 0;
        let mut found = false;
        proof {
            assert(self@.take(0) =~= Seq::<(Seq<char>, Seq<char>)>::empty());
        }
        let mut k: usize = 0;
        while k < n
            invariant
                n == self.mappings.len(),
                k <= n,
                if found {
                    best < k && spec_best_match(self@.take(k as int), import_path@) == Some(
                        best as int,
                    ) && best_len == self@[best as int].0.len()
                } else {
                    spec_best_match(self@.take(k as int), import_path@) is None
                },
            decreases n - k,
        {
            proof {
                assert(self@[k as int] == (self.mappings@[k as int].0@, self.mappings@[k as int].1@));
                assert(self@.take(k + 1).drop_last() =~= self@.take(k as int));
                assert(self@.take(k + 1).last() == self@[k as int]);
            }
            let from_len = self.mappings[k].0.as_str().unicode_len();
            if starts_with(import_path, self.mappings[k].0.as_str()) && (!found || from_len
                > best_len) {
                best = k;
                best_len = from_len;
                found = true;
            }
            k += 1;
        }
        proof {
            assert(self@.take(n as int) =~= self@);
        }
        if found {
            proof {
                lemma_best_match_longest(self@, import_path@);
                assert(self@[best as int] == (
                    self.mappings@[best as int].0@,
                    self.mappings@[best as int].1@,
                ));
            }
            let path_len = import_path.unicode_len();
            let tail = import_path.substring_char(best_len, path_len);
            let mut out = String::from_str(self.mappings[best].1.as_str());
            out.append(tail);
            proof {
                assert(import_path@.subrange(best_len as int, path_len as int)
                    =~= import_path@.skip(best_len as int));
            }
            out
        } else {
            String::from_str(import_path)
        }
    }

    /// Apply the remappings to the quoted path of every import line of
    /// `content`; all other lines are kept unchanged.
    pub fn process_imports(&self, content: &str) -> (r: String)
        ensures
            r@ == spec_process_imports(self@, content@),
    {
        let parts = split_char(content, '\n');
        let ghost lviews = parts@.map_values(|p: String| p@);
        let ghost mapped = lviews.map_values(|line: Seq<char>| spec_process_line(self@, line));
        let mut out = String::new();
        let mut k: usize = 0;
        proof {
            assert(mapped.take(0) =~= Seq::<Seq<char>>::empty());
        }
        while k < parts.len()
            invariant
                k <= parts.len(),
                lviews == parts@.map_values(|p: String| p@),
                mapped == lviews.map_values(|line: Seq<char>| spec_process_line(self@, line)),
                out@ == spec_join(mapped.take(k as int), '\n'),
            decreases parts.len() - k,
        {
            let pl = self.process_line(parts[k].as_str());
            if k > 0 {
                out.append("\n");
            }
            out.append(pl.as_str());
            proof {
                reveal_strlit("\n");
                assert("\n"@ =~= seq!['\n']);
                assert(mapped[k as int] == spec_process_line(self@, lviews[k as int]));
                assert(lviews[k as int] == parts@[k as int]@);
                lemma_join_push(mapped.take(k as int), '\n', mapped[k as int]);
                assert(mapped.take(k + 1) =~= mapped.take(k as int).push(mapped[k as int]));
            }
            k += 1;
        }
        proof {
            assert(mapped.take(parts@.len() as int) =~= mapped);
        }
        out
    }

    /// Process a single line as `process_imports` does.
    fn process_line(&self, line: &str) -> (r: String)
        ensures
            r@ == spec_process_line(self@, line@),
    {
        let t = trim(line);
        if starts_with(t, "import ") {
            let n = line.unicode_len();
            match find_char(line, '"') {
                Some(a) => {
                    proof {
                        lemma_find_at_props(line@, '"', 0);
                    }
                    match find_char_from(line, '"', a + 1) {
                        Some(e) => {
                            proof {
                                lemma_find_at_props(line@, '"', a + 1);
                            }
                            let quoted = line.substring_char(a + 1, e);
                            let mapped = self.remap(quoted);
                            let mut out = String::from_str(line.substring_char(0, a + 1));
                            out.append(mapped.as_str());
                            out.append(line.substring_char(e, n));
                            proof {
                                assert(line@.subrange(0, a + 1) =~= line@.take(a + 1));
                                assert(line@.subrange(e as int, n as int) =~= line@.skip(e as int));
                            }
                            out
                        },
                        None => String::from_str(line),
                    }
                },
                None => String::from_str(line),
            }
        } else {
            String::from_str(line)
        }
    }
}

impl Default for Remappings {
    /// An empty set of remappings.
    fn default() -> (r: Self)
        ensures
            r@ == Seq::<(Seq<char>, Seq<char>)>::empty(),
            r.wf(),
    {
        let r = Remappings { mappings: Vec::new() };
        proof {
            assert(r@ =~= Seq::<(Seq<char>, Seq<char>)>::empty());
        }
        r
    }
}

} // verus!

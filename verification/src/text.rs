//! String utilities: equality, prefix/suffix tests, searching, trimming,
//! splitting and joining, all specified over the `Seq<char>` views of `&str`
//! and `String`.

use vstd::prelude::*;
use vstd::string::*;

verus! {

/// The Unicode `White_Space` characters, the set `str::trim` removes.
pub open spec fn is_ws_char(c: char) -> bool {
    ||| c == '\u{0009}'
    ||| c == '\u{000A}'
    ||| c == '\u{000B}'
    ||| c == '\u{000C}'
    ||| c == '\u{000D}'
    ||| c == '\u{0020}'
    ||| c == '\u{0085}'
    ||| c == '\u{00A0}'
    ||| c == '\u{1680}'
    ||| ('\u{2000}' <= c && c <= '\u{200A}')
    ||| c == '\u{2028}'
    ||| c == '\u{2029}'
    ||| c == '\u{202F}'
    ||| c == '\u{205F}'
    ||| c == '\u{3000}'
}

/// Runtime test for [`is_ws_char`].
pub fn is_whitespace_char(c: char) -> (r: bool)
    ensures
        r == is_ws_char(c),
{
    c == '\u{0009}' || c == '\u{000A}' || c == '\u{000B}' || c == '\u{000C}' || c == '\u{000D}'
        || c == '\u{0020}' || c == '\u{0085}' || c == '\u{00A0}' || c == '\u{1680}' || ('\u{2000}'
        <= c && c <= '\u{200A}') || c == '\u{2028}' || c == '\u{2029}' || c == '\u{202F}' || c
        == '\u{205F}' || c == '\u{3000}'
}

/// Index of the first occurrence of `c` in `s` at or after position `i`.
pub open spec fn spec_find_at(s: Seq<char>, c: char, i: int) -> Option<int>
    decreases s.len() - i,
{
    if i < 0 || i >= s.len() {
        None
    } else if s[i] == c {
        Some(i)
    } else {
        spec_find_at(s, c, i + 1)
    }
}

/// Index of the first occurrence of `c` in `s`.
pub open spec fn spec_find(s: Seq<char>, c: char) -> Option<int> {
    spec_find_at(s, c, 0)
}

/// What a successful or failed search means, character by character.
pub proof fn lemma_find_at_props(s: Seq<char>, c: char, i: int)
    requires
        0 <= i <= s.len(),
    ensures
        match spec_find_at(s, c, i) {
            Some(k) => i <= k < s.len() && s[k] == c && (forall|j: int|
                i <= j < k ==> s[j] != c),
            None => forall|j: int| i <= j < s.len() ==> s[j] != c,
        },
    decreases s.len() - i,
{
    if i < s.len() && s[i] != c {
        lemma_find_at_props(s, c, i + 1);
    }
}

/// Index of the last occurrence of `c` in `s`.
pub open spec fn spec_rfind(s: Seq<char>, c: char) -> Option<int>
    decreases s.len(),
{
    if s.len() == 0 {
        None
    } else if s[s.len() - 1] == c {
        Some(s.len() - 1)
    } else {
        spec_rfind(s.drop_last(), c)
    }
}

/// What a successful or failed backwards search means.
pub proof fn lemma_rfind_props(s: Seq<char>, c: char)
    ensures
        match spec_rfind(s, c) {
            Some(k) => 0 <= k < s.len() && s[k] == c && (forall|j: int|
                k < j < s.len() ==> s[j] != c),
            None => forall|j: int| 0 <= j < s.len() ==> s[j] != c,
        },
    decreases s.len(),
{
    if s.len() > 0 && s[s.len() - 1] != c {
        lemma_rfind_props(s.drop_last(), c);
        assert(forall|j: int| 0 <= j < s.len() - 1 ==> #[trigger] s[j] == s.drop_last()[j]);
    }
}

/// `s` with its leading `White_Space` characters removed.
pub open spec fn spec_ltrim(s: Seq<char>) -> Seq<char>
    decreases s.len(),
{
    if s.len() > 0 && is_ws_char(s[0]) {
        spec_ltrim(s.drop_first())
    } else {
        s
    }
}

/// `s` with its trailing `White_Space` characters removed.
pub open spec fn spec_rtrim(s: Seq<char>) -> Seq<char>
    decreases s.len(),
{
    if s.len() > 0 && is_ws_char(s.last()) {
        spec_rtrim(s.drop_last())
    } else {
        s
    }
}

/// `s` with leading and trailing `White_Space` removed, as `str::trim` does.
pub open spec fn spec_trim(s: Seq<char>) -> Seq<char> {
    spec_rtrim(spec_ltrim(s))
}

/// `s` split at every occurrence of `sep`; the separators themselves are
/// dropped.  The result always has at least one element.
pub open spec fn spec_split(s: Seq<char>, sep: char) -> Seq<Seq<char>>
    decreases s.len(),
{
    match spec_find(s, sep) {
        None => seq![s],
        Some(i) => {
            let k = if 0 <= i < s.len() {
                i
            } else {
                0
            };
            seq![s.take(k)] + spec_split(s.skip(k + 1), sep)
        },
    }
}

/// The parts joined with `sep` between consecutive parts.
pub open spec fn spec_join(parts: Seq<Seq<char>>, sep: char) -> Seq<char>
    decreases parts.len(),
{
    if parts.len() == 0 {
        Seq::empty()
    } else if parts.len() == 1 {
        parts[0]
    } else {
        parts[0] + seq![sep] + spec_join(parts.drop_first(), sep)
    }
}

/// A split has at least one part.
pub proof fn lemma_split_len(s: Seq<char>, sep: char)
    ensures
        spec_split(s, sep).len() >= 1,
{
}

/// Joining the parts of a split gives back the string that was split.
pub proof fn lemma_join_split(s: Seq<char>, sep: char)
    ensures
        spec_join(spec_split(s, sep), sep) == s,
    decreases s.len(),
{
    lemma_find_at_props(s, sep, 0);
    match spec_find(s, sep) {
        None => {
            assert(spec_join(seq![s], sep) == s);
        },
        Some(i) => {
            let rest = s.skip(i + 1);
            lemma_join_split(rest, sep);
            lemma_split_len(rest, sep);
            let parts = spec_split(s, sep);
            assert(parts == seq![s.take(i)] + spec_split(rest, sep));
            assert(parts.drop_first() =~= spec_split(rest, sep));
            assert(s.take(i) + seq![sep] + rest =~= s);
        },
    }
}

/// Appending one more part to a join appends a separator and the part.
pub proof fn lemma_join_push(parts: Seq<Seq<char>>, sep: char, x: Seq<char>)
    ensures
        spec_join(parts.push(x), sep) == if parts.len() == 0 {
            x
        } else {
            spec_join(parts, sep) + seq![sep] + x
        },
    decreases parts.len(),
{
    if parts.len() == 0 {
        assert(parts.push(x)[0] == x);
        assert(spec_join(parts.push(x), sep) == x);
    } else if parts.len() == 1 {
        assert(parts.push(x).drop_first() =~= seq![x]);
        assert(parts.push(x)[0] == parts[0]);
        assert(seq![x].len() == 1 && seq![x][0] == x);
        assert(spec_join(seq![x], sep) == x);
        assert(spec_join(parts.push(x), sep) == parts[0] + seq![sep] + x);
        assert(spec_join(parts, sep) == parts[0]);
    } else {
        lemma_join_push(parts.drop_first(), sep, x);
        assert(parts.push(x).drop_first() =~= parts.drop_first().push(x));
        assert(spec_join(parts.push(x), sep) == parts[0] + seq![sep] + spec_join(
            parts.drop_first().push(x),
            sep,
        ));
        assert(spec_join(parts, sep) + seq![sep] + x =~= parts[0] + seq![sep] + (spec_join(
            parts.drop_first(),
            sep,
        ) + seq![sep] + x));
    }
}

/// A string that ends with the separator splits into at least two parts, the
/// last of them empty.
pub proof fn lemma_split_last_empty(s: Seq<char>, sep: char)
    requires
        s.len() > 0,
        s.last() == sep,
    ensures
        spec_split(s, sep).len() >= 2,
        spec_split(s, sep).last() == Seq::<char>::empty(),
    decreases s.len(),
{
    lemma_find_at_props(s, sep, 0);
    match spec_find(s, sep) {
        None => {
            assert(false);
        },
        Some(i) => {
            let rest = s.skip(i + 1);
            let parts = spec_split(s, sep);
            lemma_split_len(rest, sep);
            assert(parts == seq![s.take(i)] + spec_split(rest, sep));
            if i == s.len() - 1 {
                assert(rest =~= Seq::<char>::empty());
                assert(spec_split(rest, sep) == seq![rest]);
                assert(parts.last() == rest);
            } else {
                assert(rest.last() == s.last());
                lemma_split_last_empty(rest, sep);
                assert(parts.last() == spec_split(rest, sep).last());
            }
        },
    }
}

/// A join of at least two parts whose last part is empty ends with the
/// separator.
pub proof fn lemma_join_last_empty(parts: Seq<Seq<char>>, sep: char)
    requires
        parts.len() >= 2,
        parts.last() == Seq::<char>::empty(),
    ensures
        spec_join(parts, sep).len() > 0,
        spec_join(parts, sep).last() == sep,
    decreases parts.len(),
{
    let j = spec_join(parts, sep);
    if parts.len() == 2 {
        assert(parts.drop_first().len() == 1);
        assert(spec_join(parts.drop_first(), sep) == parts.drop_first()[0]);
        assert(parts.drop_first()[0] == parts.last());
        assert(j == parts[0] + seq![sep] + Seq::<char>::empty());
        assert(j.len() == parts[0].len() + 1);
        assert(j.last() == sep);
    } else {
        assert(parts.drop_first().last() == parts.last());
        lemma_join_last_empty(parts.drop_first(), sep);
        let rest = spec_join(parts.drop_first(), sep);
        assert(j == parts[0] + seq![sep] + rest);
        assert(j.len() == parts[0].len() + 1 + rest.len());
        assert(j.last() == rest.last());
    }
}

/// Character-wise equality of two string slices.
pub fn str_eq(a: &str, b: &str) -> (r: bool)
    ensures
        r == (a@ == b@),
{
    let n = a.unicode_len();
    if n != b.unicode_len() {
        return false;
    }
    let mut i: usize = 0;
    while i < n
        invariant
            n == a@.len(),
            n == b@.len(),
            i <= n,
            forall|j: int| 0 <= j < i ==> a@[j] == b@[j],
        decreases n - i,
    {
        if a.get_char(i) != b.get_char(i) {
            return false;
        }
        i += 1;
    }
    proof {
        assert(a@ =~= b@);
    }
    true
}

/// Does `sub` occur in `s` starting exactly at position `at`?
pub fn matches_at(s: &str, sub: &str, at: usize) -> (r: bool)
    ensures
        r == (at + sub@.len() <= s@.len() && s@.subrange(at as int, at + sub@.len()) == sub@),
{
    let n = s.unicode_len();
    let m = sub.unicode_len();
    if at > n || m > n - at {
        return false;
    }
    let mut i: usize = 0;
    while i < m
        invariant
            n == s@.len(),
            m == sub@.len(),
            at + m <= n,
            i <= m,
            forall|j: int| 0 <= j < i ==> s@[at + j] == sub@[j],
        decreases m - i,
    {
        if s.get_char(at + i) != sub.get_char(i) {
            proof {
                assert(s@.subrange(at as int, at + sub@.len())[i as int] == s@[at + i]);
            }
            return false;
        }
        i += 1;
    }
    proof {
        assert(s@.subrange(at as int, at + sub@.len()) =~= sub@);
    }
    true
}

/// Does `s` start with `prefix`?
pub fn starts_with(s: &str, prefix: &str) -> (r: bool)
    ensures
        r == prefix@.is_prefix_of(s@),
{
    matches_at(s, prefix, 0)
}

/// Does `s` end with `suffix`?
pub fn ends_with(s: &str, suffix: &str) -> (r: bool)
    ensures
        r == suffix@.is_suffix_of(s@),
{
    let n = s.unicode_len();
    let m = suffix.unicode_len();
    if m > n {
        return false;
    }
    let r = matches_at(s, suffix, n - m);
    proof {
        assert(s@.skip(n - m) =~= s@.subrange(n - m, n as int));
    }
    r
}

/// Does `sub` occur anywhere in `s`?
pub open spec fn spec_contains(s: Seq<char>, sub: Seq<char>) -> bool {
    exists|i: int|
        0 <= i && i + sub.len() <= s.len() && #[trigger] s.subrange(i, i + sub.len()) == sub
}

/// Substring search: does `sub` occur anywhere in `s`?
pub fn contains_sub(s: &str, sub: &str) -> (r: bool)
    ensures
        r == spec_contains(s@, sub@),
{
    let n = s.unicode_len();
    let m = sub.unicode_len();
    if m > n {
        return false;
    }
    if m == 0 {
        proof {
            assert(0 + sub@.len() <= s@.len());
            assert(s@.subrange(0, 0 + sub@.len() as int) =~= sub@);
        }
        return true;
    }
    let mut i: usize = 0;
    while i <= n - m
        invariant
            n == s@.len(),
            m == sub@.len(),
            1 <= m <= n,
            i <= n - m + 1,
            forall|j: int| 0 <= j < i ==> #[trigger] s@.subrange(j, j + sub@.len()) != sub@,
        decreases n - i,
    {
        if matches_at(s, sub, i) {
            return true;
        }
        i += 1;
    }
    false
}

/// First occurrence of `c` in `s` at or after position `from`.
pub fn find_char_from(s: &str, c: char, from: usize) -> (r: Option<usize>)
    requires
        from <= s@.len(),
    ensures
        match r {
            Some(k) => Some(k as int) == spec_find_at(s@, c, from as int),
            None => spec_find_at(s@, c, from as int) is None,
        },
{
    let n = s.unicode_len();
    let mut i: usize = from;
    while i < n
        invariant
            n == s@.len(),
            from <= i <= n,
            spec_find_at(s@, c, from as int) == spec_find_at(s@, c, i as int),
        decreases n - i,
    {
        if s.get_char(i) == c {
            return Some(i);
        }
        i += 1;
    }
    None
}

/// First occurrence of `c` in `s`.
pub fn find_char(s: &str, c: char) -> (r: Option<usize>)
    ensures
        match r {
            Some(k) => Some(k as int) == spec_find(s@, c),
            None => spec_find(s@, c) is None,
        },
{
    find_char_from(s, c, 0)
}

/// Last occurrence of `c` in `s`.
pub fn rfind_char(s: &str, c: char) -> (r: Option<usize>)
    ensures
        match r {
            Some(k) => Some(k as int) == spec_rfind(s@, c),
            None => spec_rfind(s@, c) is None,
        },
{
    let n = s.unicode_len();
    let mut b: usize = n;
    proof {
        assert(s@.take(n as int) =~= s@);
    }
    while b > 0
        invariant
            n == s@.len(),
            b <= n,
            spec_rfind(s@, c) == spec_rfind(s@.take(b as int), c),
        decreases b,
    {
        proof {
            assert(s@.take(b as int).drop_last() =~= s@.take(b - 1));
            assert(s@.take(b as int).last() == s@[b - 1]);
        }
        if s.get_char(b - 1) == c {
            return Some(b - 1);
        }
        b -= 1;
    }
    proof {
        assert(s@.take(0) =~= Seq::<char>::empty());
    }
    None
}

/// `str::trim`: the slice without leading and trailing whitespace.
pub fn trim<'a>(s: &'a str) -> (r: &'a str)
    ensures
        r@ == spec_trim(s@),
{
    let n = s.unicode_len();
    let mut a: usize = 0;
    proof {
        assert(s@.skip(0) =~= s@);
    }
    while a < n && is_whitespace_char(s.get_char(a))
        invariant
            n == s@.len(),
            a <= n,
            spec_ltrim(s@) == spec_ltrim(s@.skip(a as int)),
        decreases n - a,
    {
        proof {
            assert(s@.skip(a as int).drop_first() =~= s@.skip(a + 1));
        }
        a += 1;
    }
    proof {
        if a == n {
            assert(s@.skip(a as int) =~= Seq::<char>::empty());
        } else {
            assert(s@.skip(a as int)[0] == s@[a as int]);
        }
        assert(spec_ltrim(s@) == s@.skip(a as int));
    }
    let mut b: usize = n;
    proof {
        assert(s@.skip(a as int) =~= s@.subrange(a as int, n as int));
    }
    while b > a && is_whitespace_char(s.get_char(b - 1))
        invariant
            n == s@.len(),
            a <= b <= n,
            spec_rtrim(s@.skip(a as int)) == spec_rtrim(s@.subrange(a as int, b as int)),
        decreases b,
    {
        proof {
            assert(s@.subrange(a as int, b as int).drop_last() =~= s@.subrange(a as int, b - 1));
            assert(s@.subrange(a as int, b as int).last() == s@[b - 1]);
        }
        b -= 1;
    }
    proof {
        let part = s@.subrange(a as int, b as int);
        if b == a {
            assert(part =~= Seq::<char>::empty());
        } else {
            assert(part.last() == s@[b - 1]);
        }
        assert(spec_rtrim(s@.skip(a as int)) == part);
    }
    s.substring_char(a, b)
}

/// `s` split at every occurrence of `sep`, each part as a fresh `String`.
pub fn split_char(s: &str, sep: char) -> (r: Vec<String>)
    ensures
        r@.map_values(|p: String| p@) == spec_split(s@, sep),
{
    let mut parts: Vec<String> = Vec::new();
    let mut rest: &str = s;
    loop
        invariant
            spec_split(s@, sep) == parts@.map_values(|p: String| p@) + spec_split(rest@, sep),
        decreases rest@.len(),
    {
        let n = rest.unicode_len();
        match find_char(rest, sep) {
            Some(i) => {
                proof {
                    lemma_find_at_props(rest@, sep, 0);
                }
                let part = rest.substring_char(0, i);
                proof {
                    assert(rest@.take(i as int) =~= rest@.subrange(0, i as int));
                }
                let ghost old_parts = parts@;
                let ghost old_rest = rest@;
                parts.push(String::from_str(part));
                rest = rest.substring_char(i + 1, n);
                proof {
                    assert(rest@ =~= old_rest.skip(i + 1));
                    assert(parts@.map_values(|p: String| p@) =~= old_parts.map_values(
                        |p: String| p@,
                    ).push(old_rest.take(i as int)));
                    assert(parts@.map_values(|p: String| p@) + spec_split(rest@, sep)
                        =~= old_parts.map_values(|p: String| p@) + (seq![old_rest.take(i as int)]
                        + spec_split(old_rest.skip(i + 1), sep)));
                }
            },
            None => {
                let ghost old_parts = parts@;
                parts.push(String::from_str(rest));
                proof {
                    assert(parts@.map_values(|p: String| p@) =~= old_parts.map_values(
                        |p: String| p@,
                    ).push(rest@));
                    assert(parts@.map_values(|p: String| p@) =~= old_parts.map_values(
                        |p: String| p@,
                    ) + seq![rest@]);
                }
                return parts;
            },
        }
    }
}

} // verus!

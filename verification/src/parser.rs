//! Scanning Solidity sources for contract, library and interface
//! declarations: a declaration is a line that, after leading whitespace,
//! holds one of the three keywords, whitespace, and an identifier.

use vstd::prelude::*;
use vstd::string::*;
use crate::text::{is_ws_char, is_whitespace_char, matches_at, spec_split, split_char};

verus! {

/// The kind of a Solidity declaration.
#[derive(Debug, Clone, Copy, PartialEq, Eq, Structural)]
pub enum DeclKind {
    /// A `contract` declaration.
    Contract,
    /// A `library` declaration.
    Library,
    /// An `interface` declaration.
    Interface,
}

/// The model of one discovered declaration.
pub struct SpecContractInfo {
    /// The declared name.
    pub name: Seq<char>,
    /// The path of the file the declaration was found in.
    pub path: Seq<char>,
    /// The import path of that file relative to the source directory.
    pub import_path: Seq<char>,
    /// Whether the declaration is a library.
    pub is_library: bool,
    /// Whether the declaration is an interface.
    pub is_interface: bool,
}

/// One discovered declaration.
#[derive(Debug, Clone)]
pub struct ContractInfo {
    /// The declared name.
    pub name: String,
    /// The path of the file the declaration was found in.
    pub path: String,
    /// The import path of that file relative to the source directory.
    pub import_path: String,
    /// Whether the declaration is a library.
    pub is_library: bool,
    /// Whether the declaration is an interface.
    pub is_interface: bool,
}

impl View for ContractInfo {
    type V = SpecContractInfo;

    open spec fn view(&self) -> SpecContractInfo {
        SpecContractInfo {
            name: self.name@,
            path: self.path@,
            import_path: self.import_path@,
            is_library: self.is_library,
            is_interface: self.is_interface,
        }
    }
}

/// The characters an identifier may start with.
pub open spec fn is_ident_start(c: char) -> bool {
    ('A' <= c && c <= 'Z') || ('a' <= c && c <= 'z') || c == '_'
}

/// The characters an identifier may continue with.
pub open spec fn is_ident_char(c: char) -> bool {
    is_ident_start(c) || ('0' <= c && c <= '9')
}

/// The length of the whitespace run of `s` starting at `i`.
pub open spec fn spec_ws_run(s: Seq<char>, i: int) -> int
    decreases s.len() - i,
{
    if 0 <= i < s.len() && is_ws_char(s[i]) {
        1 + spec_ws_run(s, i + 1)
    } else {
        0
    }
}

/// The length of the identifier-character run of `s` starting at `i`.
pub open spec fn spec_ident_run(s: Seq<char>, i: int) -> int
    decreases s.len() - i,
{
    if 0 <= i < s.len() && is_ident_char(s[i]) {
        1 + spec_ident_run(s, i + 1)
    } else {
        0
    }
}

/// The declared name when `line` holds keyword `kw` at position `a` followed
/// by whitespace and an identifier.
pub open spec fn spec_try_keyword(line: Seq<char>, a: int, kw: Seq<char>) -> Option<Seq<char>> {
    if 0 <= a && a + kw.len() <= line.len() && line.subrange(a, a + kw.len()) == kw {
        let k = a + kw.len();
        let w = spec_ws_run(line, k);
        if w >= 1 {
            let st = k + w;
            if st < line.len() && is_ident_start(line[st]) {
                Some(line.subrange(st, st + spec_ident_run(line, st)))
            } else {
                None
            }
        } else {
            None
        }
    } else {
        None
    }
}

/// The declaration on one line: after leading whitespace, one of the three
/// keywords, whitespace, and an identifier.
pub open spec fn spec_line_decl(line: Seq<char>) -> Option<(DeclKind, Seq<char>)> {
    let a = spec_ws_run(line, 0);
    match spec_try_keyword(line, a, "contract"@) {
        Some(n) => Some((DeclKind::Contract, n)),
        None => match spec_try_keyword(line, a, "library"@) {
            Some(n) => Some((DeclKind::Library, n)),
            None => match spec_try_keyword(line, a, "interface"@) {
                Some(n) => Some((DeclKind::Interface, n)),
                None => None,
            },
        },
    }
}

/// The declarations of the first `n` lines, with file paths attached.
pub open spec fn spec_decls_upto(
    lines: Seq<Seq<char>>,
    path: Seq<char>,
    import_path: Seq<char>,
    n: int,
) -> Seq<SpecContractInfo>
    decreases n,
{
    if n <= 0 {
        Seq::empty()
    } else {
        let prev = spec_decls_upto(lines, path, import_path, n - 1);
        match spec_line_decl(lines[n - 1]) {
            Some(d) => prev.push(
                SpecContractInfo {
                    name: d.1,
                    path,
                    import_path,
                    is_library: d.0 is Library,
                    is_interface: d.0 is Interface,
                },
            ),
            None => prev,
        }
    }
}

/// All declarations of one source text, line by line.
pub open spec fn spec_source_decls(
    content: Seq<char>,
    path: Seq<char>,
    import_path: Seq<char>,
) -> Seq<SpecContractInfo> {
    let lines = spec_split(content, '\n');
    spec_decls_upto(lines, path, import_path, lines.len() as int)
}

/// The length of the whitespace run of `s` starting at `from`.
fn ws_run(s: &str, from: usize) -> (r: usize)
    requires
        from <= s@.len(),
    ensures
        r as int == spec_ws_run(s@, from as int),
        from + r <= s@.len(),
{
    let n = s.unicode_len();
    let mut i: usize = from;
    while i < n && is_whitespace_char(s.get_char(i))
        invariant
            n == s@.len(),
            from <= i <= n,
            spec_ws_run(s@, from as int) == (i - from) + spec_ws_run(s@, i as int),
        decreases n - i,
    {
        i += 1;
    }
    proof {
        assert(spec_ws_run(s@, i as int) == 0);
    }
    i - from
}

/// Is `c` an identifier character?
fn ident_char(c: char) -> (r: bool)
    ensures
        r == is_ident_char(c),
{
    ('A' <= c && c <= 'Z') || ('a' <= c && c <= 'z') || c == '_' || ('0' <= c && c <= '9')
}

/// The length of the identifier run of `s` starting at `from`.
fn ident_run(s: &str, from: usize) -> (r: usize)
    requires
        from <= s@.len(),
    ensures
        r as int == spec_ident_run(s@, from as int),
        from + r <= s@.len(),
{
    let n = s.unicode_len();
    let mut i: usize = from;
    while i < n && ident_char(s.get_char(i))
        invariant
            n == s@.len(),
            from <= i <= n,
            spec_ident_run(s@, from as int) == (i - from) + spec_ident_run(s@, i as int),
        decreases n - i,
    {
        i += 1;
    }
    proof {
        assert(spec_ident_run(s@, i as int) == 0);
    }
    i - from
}

/// Try one keyword at position `a` of `line`.
fn try_keyword(line: &str, a: usize, kw: &str) -> (r: Option<String>)
    requires
        a <= line@.len(),
    ensures
        match r {
            Some(name) => spec_try_keyword(line@, a as int, kw@) == Some(name@),
            None => spec_try_keyword(line@, a as int, kw@) is None,
        },
{
    if !matches_at(line, kw, a) {
        return None;
    }
    let n = line.unicode_len();
    let k = a + kw.unicode_len();
    let w = ws_run(line, k);
    if w == 0 {
        return None;
    }
    let st = k + w;
    if st < n {
        let c = line.get_char(st);
        if ('A' <= c && c <= 'Z') || ('a' <= c && c <= 'z') || c == '_' {
            let l = ident_run(line, st);
            return Some(String::from_str(line.substring_char(st, st + l)));
        }
    }
    None
}

/// The declaration on one line, as [`spec_line_decl`] describes.
fn line_decl(line: &str) -> (r: Option<(DeclKind, String)>)
    ensures
        match r {
            Some(d) => spec_line_decl(line@) matches Some(sd) && sd.0 == d.0 && sd.1 == d.1@,
            None => spec_line_decl(line@) is None,
        },
{
    let a = ws_run(line, 0);
    match try_keyword(line, a, "contract") {
        Some(n) => Some((DeclKind::Contract, n)),
        None => match try_keyword(line, a, "library") {
            Some(n) => Some((DeclKind::Library, n)),
            None => match try_keyword(line, a, "interface") {
                Some(n) => Some((DeclKind::Interface, n)),
                None => None,
            },
        },
    }
}

/// Scan one source text for contract, library and interface declarations, as
/// [`spec_source_decls`] describes; `path` and `import_path` are recorded on
/// every declaration found.
pub fn contracts_in_source(content: &str, path: &str, import_path: &str) -> (r: Vec<ContractInfo>)
    ensures
        r@.map_values(|c: ContractInfo| c@) == spec_source_decls(content@, path@, import_path@),
{
    let lines = split_char(content, '\n');
    let ghost lviews = lines@.map_values(|p: String| p@);
    let mut out: Vec<ContractInfo> = Vec::new();
    let mut k: usize = 0;
    proof {
        assert(out@.map_values(|c: ContractInfo| c@) =~= Seq::<SpecContractInfo>::empty());
    }
    while k < lines.len()
        invariant
            k <= lines.len(),
            lviews == lines@.map_values(|p: String| p@),
            out@.map_values(|c: ContractInfo| c@) == spec_decls_upto(
                lviews,
                path@,
                import_path@,
                k as int,
            ),
        decreases lines.len() - k,
    {
        let ghost prev = out@.map_values(|c: ContractInfo| c@);
        proof {
            assert(lviews[k as int] == lines@[k as int]@);
        }
        match line_decl(lines[k].as_str()) {
            Some((kind, name)) => {
                let info = ContractInfo {
                    name,
                    path: String::from_str(path),
                    import_path: String::from_str(import_path),
                    is_library: matches!(kind, DeclKind::Library),
                    is_interface: matches!(kind, DeclKind::Interface),
                };
                out.push(info);
                proof {
                    assert(out@.map_values(|c: ContractInfo| c@) =~= prev.push(info@));
                }
            },
            None => {},
        }
        k += 1;
    }
    proof {
        assert(lviews.len() == lines@.len());
    }
    out
}

/// Lexicographic order on character sequences, the order `str` comparison
/// gives.
pub open spec fn lex_le(a: Seq<char>, b: Seq<char>) -> bool
    decreases a.len(),
{
    if a.len() == 0 {
        true
    } else if b.len() == 0 {
        false
    } else if a[0] < b[0] {
        true
    } else if a[0] > b[0] {
        false
    } else {
        lex_le(a.drop_first(), b.drop_first())
    }
}

/// The order is total.
pub proof fn lemma_lex_le_total(a: Seq<char>, b: Seq<char>)
    ensures
        lex_le(a, b) || lex_le(b, a),
    decreases a.len(),
{
    if a.len() > 0 && b.len() > 0 && a[0] == b[0] {
        lemma_lex_le_total(a.drop_first(), b.drop_first());
    }
}

/// Lexicographic comparison of two string slices.
fn str_lex_le(a: &str, b: &str) -> (r: bool)
    ensures
        r == lex_le(a@, b@),
    decreases a@.len(),
{
    let na = a.unicode_len();
    let nb = b.unicode_len();
    if na == 0 {
        return true;
    }
    if nb == 0 {
        return false;
    }
    let ca = a.get_char(0);
    let cb = b.get_char(0);
    if ca < cb {
        true
    } else if ca > cb {
        false
    } else {
        let r = str_lex_le(a.substring_char(1, na), b.substring_char(1, nb));
        proof {
            assert(a@.subrange(1, na as int) =~= a@.drop_first());
            assert(b@.subrange(1, nb as int) =~= b@.drop_first());
        }
        r
    }
}

/// The sequence is sorted by name.
pub open spec fn sorted_by_name(s: Seq<ContractInfo>) -> bool {
    forall|i: int, j: int|
        0 <= i < j < s.len() ==> lex_le((#[trigger] s[i]).name@, (#[trigger] s[j]).name@)
}

/// Sort discovered declarations by name, keeping exactly the same
/// declarations.
pub fn sort_contracts_by_name(contracts: Vec<ContractInfo>) -> (r: Vec<ContractInfo>)
    ensures
        sorted_by_name(r@),
        r@.to_multiset() == contracts@.to_multiset(),
        r@.len() == contracts@.len(),
{
    broadcast use vstd::seq_lib::group_to_multiset_ensures;

    let ghost orig = contracts@;
    let mut src = contracts;
    let mut out: Vec<ContractInfo> = Vec::new();
    while src.len() > 0
        invariant
            sorted_by_name(out@),
            out@.to_multiset().add(src@.to_multiset()) =~= orig.to_multiset(),
            out@.len() + src@.len() == orig.len(),
            forall|i: int, j: int|
                0 <= i < out@.len() && 0 <= j < src@.len() ==> lex_le(
                    (#[trigger] out@[i]).name@,
                    (#[trigger] src@[j]).name@,
                ),
        decreases src@.len(),
    {
        let n = src.len();
        let mut m: usize = 0;
        proof {
            lemma_lex_le_total(src@[0].name@, src@[0].name@);
        }
        let mut k: usize = 1;
        while k < n
            invariant
                n == src.len(),
                m < k <= n,
                forall|i: int| 0 <= i < k ==> lex_le(src@[m as int].name@, (#[trigger] src@[i]).name@),
            decreases n - k,
        {
            if !str_lex_le(src[m].name.as_str(), src[k].name.as_str()) {
                proof {
                    lemma_lex_le_total(src@[m as int].name@, src@[k as int].name@);
                    assert forall|i: int| 0 <= i < k + 1 implies lex_le(
                        src@[k as int].name@,
                        (#[trigger] src@[i]).name@,
                    ) by {
                        if i < k {
                            lemma_lex_le_trans(
                                src@[k as int].name@,
                                src@[m as int].name@,
                                src@[i].name@,
                            );
                        } else {
                            lemma_lex_le_total(src@[k as int].name@, src@[k as int].name@);
                        }
                    }
                }
                m = k;
            } else {
                proof {
                    lemma_lex_le_total(src@[k as int].name@, src@[k as int].name@);
                }
            }
            k += 1;
        }
        let ghost src_before = src@;
        let ghost out_before = out@;
        let x = src.remove(m);
        out.push(x);
        proof {
            src_before.to_multiset_ensures();
            out_before.to_multiset_ensures();
            assert(src_before.remove(m as int).to_multiset() =~= src_before.to_multiset().remove(
                src_before[m as int],
            ));
            assert(out_before.push(x).to_multiset() =~= out_before.to_multiset().insert(x));
            assert(out@.to_multiset().add(src@.to_multiset()) =~= orig.to_multiset());
            assert(x == src_before[m as int]);
            assert forall|i: int, j: int|
                0 <= i < j < out@.len() implies lex_le(
                (#[trigger] out@[i]).name@,
                (#[trigger] out@[j]).name@,
            ) by {
                if j < out@.len() - 1 {
                    assert(out@[i] == out_before[i] && out@[j] == out_before[j]);
                } else {
                    assert(out@[j] == x && out@[i] == out_before[i]);
                    assert(lex_le(out_before[i].name@, src_before[m as int].name@));
                }
            }
            assert forall|i: int, j: int|
                0 <= i < out@.len() && 0 <= j < src@.len() implies lex_le(
                (#[trigger] out@[i]).name@,
                (#[trigger] src@[j]).name@,
            ) by {
                let sj: int = if j < m {
                    j
                } else {
                    j + 1
                };
                assert(src@[j] == src_before[sj]);
                if i < out@.len() - 1 {
                    assert(out@[i] == out_before[i]);
                    assert(lex_le(out_before[i].name@, src_before[sj].name@));
                } else {
                    assert(out@[i] == x);
                    assert(lex_le(src_before[m as int].name@, src_before[sj].name@));
                }
            }
        }
    }
    out
}

/// The order is transitive.
pub proof fn lemma_lex_le_trans(a: Seq<char>, b: Seq<char>, c: Seq<char>)
    requires
        lex_le(a, b),
        lex_le(b, c),
    ensures
        lex_le(a, c),
    decreases a.len(),
{
    if a.len() > 0 && b.len() > 0 && c.len() > 0 {
        if a[0] == b[0] && b[0] == c[0] {
            lemma_lex_le_trans(a.drop_first(), b.drop_first(), c.drop_first());
        }
    }
}

} // verus!

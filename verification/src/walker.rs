use crate::order::{
    key_before, lemma_bytes_before_total, lemma_sorted, ordered, record_key, sort_records, sorted,
    Record, SortKey,
};
use crate::text::{bytes_eq, bytes_lt, chars_of, str_eq};
use vstd::prelude::*;
use vstd::string::*;
use vstd::utf8::*;

verus! {

/// The kind of a source file, which decides the grammar it is read with.
#[derive(Debug, Clone, Copy, PartialEq, Eq, Structural)]
pub enum SourceKind {
    Ts,
    Tsx,
    Vue,
}

/// A source file that was found, with its kind.
#[derive(Debug, Clone, PartialEq, Eq)]
pub struct SourceFile {
    pub path: String,
    pub kind: SourceKind,
}

/// An entry of the directory tree: a path, whether it is a directory, and
/// how far below the root it lies.
#[derive(Debug, Clone, PartialEq, Eq)]
pub struct RepoEntry {
    pub path: String,
    pub is_dir: bool,
    pub depth: usize,
}

/// The place of the last `c` in `s`, or `-1`.
pub open spec fn last_index_of(s: Seq<char>, c: char) -> int
    decreases s.len(),
{
    if s.len() == 0 {
        -1
    } else if s.last() == c {
        s.len() - 1
    } else {
        last_index_of(s.drop_last(), c)
    }
}

/// The place that `last_index_of` gives lies in `s`, or is `-1`.
pub proof fn lemma_last_index_of(s: Seq<char>, c: char)
    ensures
        -1 <= last_index_of(s, c) < s.len(),
    decreases s.len(),
{
    if s.len() > 0 && s.last() != c {
        lemma_last_index_of(s.drop_last(), c);
    }
}

/// The name of the file that a path leads to: what follows its last slash.
pub open spec fn file_name_of(path: Seq<char>) -> Seq<char> {
    path.subrange(last_index_of(path, '/') + 1, path.len() as int)
}

/// The extension of a file name: what follows its last dot, where that dot
/// is not its first character.
pub open spec fn extension_of(name: Seq<char>) -> Option<Seq<char>> {
    let dot = last_index_of(name, '.');
    if dot <= 0 {
        None
    } else {
        Some(name.subrange(dot + 1, name.len() as int))
    }
}

/// Whether `s` ends with `tail`.
pub open spec fn ends_with(s: Seq<char>, tail: Seq<char>) -> bool {
    tail.len() <= s.len() && s.subrange(s.len() - tail.len(), s.len() as int) == tail
}

/// The kind of the source file at `path`, told by its extension: `ts` but
/// for declaration files, `tsx` and `vue`. Any other file is no source file.
pub open spec fn kind_of_path(path: Seq<char>) -> Option<SourceKind> {
    let name = file_name_of(path);
    match extension_of(name) {
        Some(ext) => if ext == "ts"@ {
            if ends_with(name, ".d.ts"@) {
                None
            } else {
                Some(SourceKind::Ts)
            }
        } else if ext == "tsx"@ {
            Some(SourceKind::Tsx)
        } else if ext == "vue"@ {
            Some(SourceKind::Vue)
        } else {
            None
        },
        None => None,
    }
}

fn last_index(s: &Vec<char>, c: char) -> (at: Option<usize>)
    ensures
        match at {
            Some(i) => last_index_of(s@, c) == i && i < s.len(),
            None => last_index_of(s@, c) == -1,
        },
{
    let mut n: usize = s.len();
    assert(s@.subrange(0, n as int) =~= s@);
    while n > 0
        invariant
            n <= s.len(),
            last_index_of(s@, c) == last_index_of(s@.subrange(0, n as int), c),
        decreases n,
    {
        assert(s@.subrange(0, n as int).drop_last() =~= s@.subrange(0, n - 1));
        if s[n - 1] == c {
            return Some(n - 1);
        }
        n = n - 1;
    }
    None
}

fn range_is(s: &Vec<char>, from: usize, to: usize, word: &str) -> (r: bool)
    requires
        from <= to <= s.len(),
    ensures
        r == (s@.subrange(from as int, to as int) == word@),
{
    let w = chars_of(word);
    if w.len() != to - from {
        return false;
    }
    let mut i: usize = 0;
    while i < w.len()
        invariant
            i <= w.len(),
            w@ == word@,
            w.len() == to - from,
            from <= to <= s.len(),
            forall|k: int| 0 <= k < i ==> s@[from + k] == w@[k],
        decreases w.len() - i,
    {
        if s[from + i] != w[i] {
            assert(s@.subrange(from as int, to as int)[i as int] != w@[i as int]);
            return false;
        }
        i = i + 1;
    }
    assert(s@.subrange(from as int, to as int) =~= w@);
    true
}

/// The kind of the source file at `path`, if it is one.
pub fn classify_source_file(path: &str) -> (kind: Option<SourceKind>)
    ensures
        kind == kind_of_path(path@),
{
    let chars = chars_of(path);
    let start = match last_index(&chars, '/') {
        Some(i) => i + 1,
        None => 0,
    };
    let ghost name = file_name_of(path@);
    let mut name_chars: Vec<char> = Vec::new();
    let mut i: usize = start;
    while i < chars.len()
        invariant
            start <= i <= chars.len(),
            name_chars@ == chars@.subrange(start as int, i as int),
        decreases chars.len() - i,
    {
        name_chars.push(chars[i]);
        assert(name_chars@ =~= chars@.subrange(start as int, i + 1));
        i = i + 1;
    }
    assert(name_chars@ == name);
    let n = name_chars.len();
    let dot = match last_index(&name_chars, '.') {
        Some(d) => d,
        None => {
            return None;
        },
    };
    if dot == 0 {
        return None;
    }
    if range_is(&name_chars, dot + 1, n, "ts") {
        if n >= 5 && range_is(&name_chars, n - 5, n, ".d.ts") {
            None
        } else {
            proof {
                reveal_strlit(".d.ts");
            }
            Some(SourceKind::Ts)
        }
    } else if range_is(&name_chars, dot + 1, n, "tsx") {
        Some(SourceKind::Tsx)
    } else if range_is(&name_chars, dot + 1, n, "vue") {
        Some(SourceKind::Vue)
    } else {
        None
    }
}

/// Whether a directory of this name is never entered.
pub open spec fn ignored_name(name: Seq<char>) -> bool {
    ||| name == ".git"@
    ||| name == "node_modules"@
    ||| name == "dist"@
    ||| name == "build"@
    ||| name == "target"@
}

/// The names of the directories that are never entered.
pub fn ignored_dirs() -> (names: Vec<&'static str>)
    ensures
        names@.len() == 5,
        names@[0]@ == ".git"@,
        names@[1]@ == "node_modules"@,
        names@[2]@ == "dist"@,
        names@[3]@ == "build"@,
        names@[4]@ == "target"@,
        forall|name: Seq<char>|
            ignored_name(name) <==> exists|i: int| 0 <= i < names@.len() && (#[trigger] names@[i])@ == name,
{
    let mut names: Vec<&'static str> = Vec::new();
    names.push(".git");
    names.push("node_modules");
    names.push("dist");
    names.push("build");
    names.push("target");
    assert forall|name: Seq<char>| ignored_name(name) implies exists|i: int|
        0 <= i < names@.len() && (#[trigger] names@[i])@ == name by {
        if name == ".git"@ {
            assert(names@[0]@ == name);
        } else if name == "node_modules"@ {
            assert(names@[1]@ == name);
        } else if name == "dist"@ {
            assert(names@[2]@ == name);
        } else if name == "build"@ {
            assert(names@[3]@ == name);
        } else {
            assert(names@[4]@ == name);
        }
    }
    names
}

/// Whether the walk goes on at an entry: at every file, and at every
/// directory but the ignored ones and, below the root, the hidden ones.
pub open spec fn descends(name: Seq<char>, is_dir: bool, depth: int) -> bool {
    !is_dir || !(ignored_name(name) || (depth > 0 && name.len() > 0 && name[0] == '.'))
}

/// Whether the walk goes on at an entry with this name.
pub fn should_descend(name: &str, is_dir: bool, depth: usize) -> (r: bool)
    ensures
        r == descends(name@, is_dir, depth as int),
{
    if !is_dir {
        return true;
    }
    let ignored = ignored_dirs();
    let mut i: usize = 0;
    while i < ignored.len()
        invariant
            i <= ignored.len(),
            is_dir,
            forall|text: Seq<char>|
                ignored_name(text) <==> exists|k: int|
                    0 <= k < ignored@.len() && (#[trigger] ignored@[k])@ == text,
            forall|k: int| 0 <= k < i ==> (#[trigger] ignored@[k])@ != name@,
        decreases ignored.len() - i,
    {
        if str_eq(ignored[i], name) {
            assert(ignored@[i as int]@ == name@);
            assert(ignored_name(name@));
            return false;
        }
        i = i + 1;
    }
    if depth > 0 && !name.is_empty() && name.get_char(0) == '.' {
        return false;
    }
    true
}

/// The bytes by which paths are ordered: those of the path, with the slash
/// turned into the lowest byte, so that paths are ordered part by part.
pub open spec fn path_bytes(path: Seq<char>) -> Seq<u8> {
    let bytes = encode_utf8(path);
    Seq::new(bytes.len(), |i: int| if bytes[i] == 0x2f { 0u8 } else { bytes[i] })
}

fn path_order_bytes(path: &str) -> (out: Vec<u8>)
    ensures
        out@ == path_bytes(path@),
{
    let bytes = path.as_bytes();
    let mut out: Vec<u8> = Vec::new();
    let mut i: usize = 0;
    while i < bytes.len()
        invariant
            i <= bytes.len(),
            bytes@ == encode_utf8(path@),
            out@ == path_bytes(path@).subrange(0, i as int),
        decreases bytes.len() - i,
    {
        let b = bytes[i];
        out.push(if b == 0x2f { 0u8 } else { b });
        assert(out@ =~= path_bytes(path@).subrange(0, i + 1));
        i = i + 1;
    }
    assert(path_bytes(path@).subrange(0, bytes.len() as int) =~= path_bytes(path@));
    out
}

/// The key of a path, and of whether it is a directory: directories come
/// before files of the same path.
pub open spec fn path_key(path: Seq<char>, is_dir: bool) -> SortKey {
    SortKey { major: 0, text: path_bytes(path), minor: if is_dir { 0 } else { 1 } }
}

fn path_before(path: &str, is_dir: bool, other: &str, other_is_dir: bool) -> (r: bool)
    ensures
        r == key_before(path_key(path@, is_dir), path_key(other@, other_is_dir)),
{
    let a = path_order_bytes(path);
    let b = path_order_bytes(other);
    proof {
        lemma_bytes_before_total(a@, b@);
    }
    bytes_lt(a.as_slice(), b.as_slice()) || (bytes_eq(a.as_slice(), b.as_slice()) && is_dir
        && !other_is_dir)
}

impl Record for SourceFile {
    open spec fn key(&self) -> SortKey {
        path_key(self.path@, true)
    }

    fn sorts_before(&self, other: &Self) -> (r: bool) {
        path_before(self.path.as_str(), true, other.path.as_str(), true)
    }
}

impl Record for RepoEntry {
    open spec fn key(&self) -> SortKey {
        path_key(self.path@, self.is_dir)
    }

    fn sorts_before(&self, other: &Self) -> (r: bool) {
        path_before(self.path.as_str(), self.is_dir, other.path.as_str(), other.is_dir)
    }
}

/// The source files among `paths`, in the order of `paths`.
pub open spec fn source_files_among(paths: Seq<String>) -> Seq<SourceFile>
    decreases paths.len(),
{
    if paths.len() == 0 {
        Seq::empty()
    } else {
        let before = source_files_among(paths.drop_last());
        match kind_of_path(paths.last()@) {
            Some(kind) => before.push(SourceFile { path: paths.last(), kind }),
            None => before,
        }
    }
}

/// The source files among the paths of the files that a walk found, in the
/// order of their paths.
pub fn collect_source_files(paths: &Vec<String>) -> (out: Vec<SourceFile>)
    ensures
        out@ == sorted(source_files_among(paths@), record_key::<SourceFile>()),
        ordered(out@, record_key::<SourceFile>()),
{
    let mut found: Vec<SourceFile> = Vec::new();
    let mut i: usize = 0;
    assert(paths@.subrange(0, 0) =~= Seq::empty());
    while i < paths.len()
        invariant
            i <= paths.len(),
            found@ == source_files_among(paths@.subrange(0, i as int)),
        decreases paths.len() - i,
    {
        assert(paths@.subrange(0, i + 1).drop_last() =~= paths@.subrange(0, i as int));
        assert(paths@.subrange(0, i + 1).last() == paths@[i as int]);
        match classify_source_file(paths[i].as_str()) {
            Some(kind) => {
                found.push(SourceFile { path: paths[i].clone(), kind });
            },
            None => {},
        }
        i = i + 1;
    }
    proof {
        assert(paths@.subrange(0, paths.len() as int) =~= paths@);
        lemma_sorted(found@, record_key::<SourceFile>());
    }
    sort_records(found)
}

/// The entries below the root, in the order of `entries`.
pub open spec fn below_root(entries: Seq<RepoEntry>) -> Seq<RepoEntry>
    decreases entries.len(),
{
    if entries.len() == 0 {
        Seq::empty()
    } else if entries.last().depth > 0 {
        below_root(entries.drop_last()).push(entries.last())
    } else {
        below_root(entries.drop_last())
    }
}

/// The entries below the root in the order of their paths, a directory
/// before a file of the same path.
pub fn collect_repo_entries(entries: &Vec<RepoEntry>) -> (out: Vec<RepoEntry>)
    ensures
        out@ == sorted(below_root(entries@), record_key::<RepoEntry>()),
        ordered(out@, record_key::<RepoEntry>()),
{
    let mut kept: Vec<RepoEntry> = Vec::new();
    let mut i: usize = 0;
    assert(entries@.subrange(0, 0) =~= Seq::empty());
    while i < entries.len()
        invariant
            i <= entries.len(),
            kept@ == below_root(entries@.subrange(0, i as int)),
        decreases entries.len() - i,
    {
        assert(entries@.subrange(0, i + 1).drop_last() =~= entries@.subrange(0, i as int));
        assert(entries@.subrange(0, i + 1).last() == entries@[i as int]);
        let entry = &entries[i];
        if entry.depth > 0 {
            kept.push(
                RepoEntry { path: entry.path.clone(), is_dir: entry.is_dir, depth: entry.depth },
            );
        }
        i = i + 1;
    }
    proof {
        assert(entries@.subrange(0, entries.len() as int) =~= entries@);
        lemma_sorted(kept@, record_key::<RepoEntry>());
    }
    sort_records(kept)
}

} // verus!

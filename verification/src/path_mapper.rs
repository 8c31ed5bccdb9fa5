//! Mapping the raw source paths that debug info gives to paths that a
//! consumer can fetch: paths into the Rust sources and into crates of the
//! cargo registry become stable "special" paths, and local paths are resolved
//! against a base directory.
use crate::text::string_push_str;
use regex::Regex;
use std::path::PathBuf;
use vstd::hash_map::StringHashMap;
use vstd::prelude::*;

verus! {

#[verifier::external_type_specification]
#[verifier::external_body]
pub struct ExRegex(Regex);

/// Any answer of a mapper in a state to a path; it singles out none.
pub open spec fn answers<M>(mapper: M, path: Seq<char>, answer: Option<Seq<char>>) -> bool {
    true
}

/// Maps paths in a way that only its implementor knows.
pub trait ExtraPathMapper {
    /// What the mapper answers for `path` when in this state: the mapped
    /// path, or `None` where it does not map `path`. A mapper that does not
    /// say more answers as a function of its state and the path alone.
    open spec fn answer(&self, path: Seq<char>) -> Option<Seq<char>> {
        choose|a: Option<Seq<char>>| #[trigger] answers(self, path, a)
    }

    /// Maps `path`, or answers `None` where it does not map it; the answer
    /// is `answer` of the mapper before the call.
    fn map_path(&mut self, path: &str) -> (r: Option<String>)
        ensures
            match r {
                Some(m) => old(self).answer(path@) == Some(m@),
                None => old(self).answer(path@) is None,
            },
    ;
}

impl ExtraPathMapper for () {
    open spec fn answer(&self, path: Seq<char>) -> Option<Seq<char>> {
        None
    }

    fn map_path(&mut self, _path: &str) -> (r: Option<String>)
        ensures
            r is None,
    {
        None
    }
}

/// Whether local source files may be referred to, and the directory that
/// relative paths are resolved against.
pub enum BasePath {
    NoLocalSourceFileAccess,
    CanReferToLocalFiles(PathBuf),
}

/// Where a source file can be found.
pub enum FilePath {
    /// A file on this machine.
    Local(PathBuf),
    /// A file on this machine that also has a special path.
    LocalMapped { local: PathBuf, mapped: String },
    /// A file that is not on this machine.
    NonLocal(String),
}

/// The pattern of paths into the Rust sources of a compiler release.
pub open spec fn rustc_pattern() -> Seq<char> {
    "^/rustc/(?P<rev>[0-9a-f]+)\\\\?[/\\\\](?P<path>.*)$"@
}

/// The pattern of paths into a crate of the cargo registry.
pub open spec fn cargo_dep_pattern() -> Seq<char> {
    "[/\\\\]\\.cargo[/\\\\]registry[/\\\\]src[/\\\\](?P<registry>[^/\\\\]+)[/\\\\](?P<crate>[^/]+)-(?P<version>[0-9]+\\.[0-9]+\\.[0-9]+)[/\\\\](?P<path>.*)$"@
}

/// The regex that `Regex::new` compiles of a pattern.
pub uninterp spec fn regex_of(pattern: Seq<char>) -> Regex;

/// The groups `rev` and `path` of the first match of the Rust-sources pattern
/// in a path, if it matches.
pub uninterp spec fn rustc_path_captures(haystack: Seq<char>) -> Option<(Seq<char>, Seq<char>)>;

/// The groups `registry`, `crate`, `version` and `path` of the first match of
/// the cargo-registry pattern in a path, if it matches.
pub uninterp spec fn cargo_path_captures(haystack: Seq<char>) -> Option<(Seq<char>, Seq<char>, Seq<char>, Seq<char>)>;

/// `Regex::new` on one of the two path patterns, which compile, so that the
/// `unwrap` does not panic; the regex is a function of the pattern alone.
#[verifier::external_body]
fn compile_path_regex(pattern: &str) -> (re: Regex)
    requires
        pattern@ == rustc_pattern() || pattern@ == cargo_dep_pattern(),
    ensures
        re == regex_of(pattern@),
{
    Regex::new(pattern).unwrap()
}

/// `Regex::captures` with the Rust-sources pattern, taking the named groups
/// `rev` and `path` (which take part in every match of that pattern).
#[verifier::external_body]
fn rustc_captures(re: &Regex, haystack: &str) -> (r: Option<(String, String)>)
    requires
        *re == regex_of(rustc_pattern()),
    ensures
        view2(r) == rustc_path_captures(haystack@),
{
    let captures = re.captures(haystack)?;
    Some((captures.name("rev")?.as_str().to_owned(), captures.name("path")?.as_str().to_owned()))
}

/// `Regex::captures` with the cargo-registry pattern, taking the named groups
/// `registry`, `crate`, `version` and `path` (which take part in every match
/// of that pattern).
#[verifier::external_body]
fn cargo_captures(re: &Regex, haystack: &str) -> (r: Option<(String, String, String, String)>)
    requires
        *re == regex_of(cargo_dep_pattern()),
    ensures
        view4(r) == cargo_path_captures(haystack@),
{
    let c = re.captures(haystack)?;
    Some((
        c.name("registry")?.as_str().to_owned(),
        c.name("crate")?.as_str().to_owned(),
        c.name("version")?.as_str().to_owned(),
        c.name("path")?.as_str().to_owned(),
    ))
}

/// The texts of two captured groups.
pub open spec fn view2(o: Option<(String, String)>) -> Option<(Seq<char>, Seq<char>)> {
    match o {
        Some((a, b)) => Some((a@, b@)),
        None => None,
    }
}

/// The texts of four captured groups.
pub open spec fn view4(o: Option<(String, String, String, String)>) -> Option<(Seq<char>, Seq<char>, Seq<char>, Seq<char>)> {
    match o {
        Some((a, b, c, d)) => Some((a@, b@, c@, d@)),
        None => None,
    }
}

/// The special path of a raw path: that of the Rust sources when the first
/// pattern matches, else that of the cargo registry when the second does.
pub open spec fn special_path(raw_path: Seq<char>) -> Option<Seq<char>> {
    special_path_of(
        rustc_path_captures(raw_path),
        if rustc_path_captures(raw_path) is Some {
            None
        } else {
            cargo_path_captures(raw_path)
        },
    )
}

/// `Path::is_absolute`. What counts as absolute depends on the platform, so
/// nothing is claimed about the answer.
#[verifier::external_body]
fn path_is_absolute(path: &str) -> bool {
    std::path::Path::new(path).is_absolute()
}

/// The `PathBuf` that `Path::to_owned` makes of a path's text.
pub uninterp spec fn path_buf_of(path: Seq<char>) -> PathBuf;

/// The `PathBuf` that `Path::join` makes of a base and a path's text.
pub uninterp spec fn joined_path(base: PathBuf, path: Seq<char>) -> PathBuf;

/// `Path::to_owned`: the path as a `PathBuf`, a function of its text alone.
#[verifier::external_body]
fn path_buf_from(path: &str) -> (p: PathBuf)
    ensures
        p == path_buf_of(path@),
{
    std::path::Path::new(path).to_owned()
}

/// `Path::join`: `path` resolved against `base`, a function of the two alone.
#[verifier::external_body]
fn join_path(base: &PathBuf, path: &str) -> (p: PathBuf)
    ensures
        p == joined_path(*base, path@),
{
    base.join(path)
}

/// `PathBuf::clone`: a clone is equal to the original.
#[verifier::external_body]
fn clone_path_buf(path: &PathBuf) -> (r: PathBuf)
    ensures
        r == *path,
{
    path.clone()
}

impl BasePath {
    pub fn clone(&self) -> (r: Self)
        ensures
            r == *self,
    {
        match self {
            BasePath::NoLocalSourceFileAccess => BasePath::NoLocalSourceFileAccess,
            BasePath::CanReferToLocalFiles(p) => BasePath::CanReferToLocalFiles(clone_path_buf(p)),
        }
    }
}

impl FilePath {
    pub fn clone(&self) -> (r: Self)
        ensures
            r == *self,
    {
        match self {
            FilePath::Local(p) => FilePath::Local(clone_path_buf(p)),
            FilePath::LocalMapped { local, mapped } => FilePath::LocalMapped {
                local: clone_path_buf(local),
                mapped: mapped.clone(),
            },
            FilePath::NonLocal(s) => FilePath::NonLocal(s.clone()),
        }
    }
}

/// `s` with every backslash turned into a slash.
pub open spec fn with_forward_slashes(s: Seq<char>) -> Seq<char> {
    s.map_values(|c: char| if c == '\\' { '/' } else { c })
}

/// Turns every backslash of `s` into a slash.
pub fn forward_slashes(s: &str) -> (r: String)
    ensures
        r@ == with_forward_slashes(s@),
{
    let chars = crate::text::chars_of(s);
    let mut r = String::new();
    let mut i: usize = 0;
    while i < chars.len()
        invariant
            chars@ == s@,
            i <= chars@.len(),
            r@ == with_forward_slashes(s@.take(i as int)),
        decreases chars@.len() - i,
    {
        let c = if chars[i] == '\\' { '/' } else { chars[i] };
        crate::text::string_push(&mut r, c);
        proof {
            assert(s@.take(i + 1) == s@.take(i as int).push(chars@[i as int]));
            assert(with_forward_slashes(s@.take(i + 1)) == with_forward_slashes(s@.take(i as int)).push(c));
        }
        i = i + 1;
    }
    assert(s@.take(i as int) == s@);
    r
}

/// The special path of a file of the Rust sources: repository, path within
/// it (with forward slashes) and revision.
pub open spec fn rustc_special_path(rev: Seq<char>, path: Seq<char>) -> Seq<char> {
    "git:github.com/rust-lang/rust:"@ + with_forward_slashes(path) + ":"@ + rev
}

/// The special path of a file of a crate of the cargo registry: registry,
/// crate, version and path within the crate (with forward slashes).
pub open spec fn cargo_special_path(registry: Seq<char>, krate: Seq<char>, version: Seq<char>, path: Seq<char>) -> Seq<
    char,
> {
    "cargo:"@ + registry + ":"@ + krate + "-"@ + version + ":"@ + with_forward_slashes(path)
}

/// The special path that the captures of the two patterns give: the Rust
/// sources first, then the cargo registry.
pub open spec fn special_path_of(
    rustc: Option<(Seq<char>, Seq<char>)>,
    cargo: Option<(Seq<char>, Seq<char>, Seq<char>, Seq<char>)>,
) -> Option<Seq<char>> {
    match rustc {
        Some((rev, path)) => Some(rustc_special_path(rev, path)),
        None => match cargo {
            Some((registry, krate, version, path)) => Some(cargo_special_path(registry, krate, version, path)),
            None => None,
        },
    }
}

/// The special path for the captures of the two patterns, when either matched.
pub fn special_path_for_captures(
    rustc: Option<(String, String)>,
    cargo: Option<(String, String, String, String)>,
) -> (r: Option<String>)
    ensures
        match r {
            Some(p) => special_path_of(view2(rustc), view4(cargo)) == Some(p@),
            None => special_path_of(view2(rustc), view4(cargo)) is None,
        },
{
    match rustc {
        Some((rev, path)) => {
            let mut s = "git:github.com/rust-lang/rust:".to_owned();
            let path = forward_slashes(path.as_str());
            string_push_str(&mut s, path.as_str());
            string_push_str(&mut s, ":");
            string_push_str(&mut s, rev.as_str());
            Some(s)
        },
        None => match cargo {
            Some((registry, krate, version, path)) => {
                let mut s = "cargo:".to_owned();
                string_push_str(&mut s, registry.as_str());
                string_push_str(&mut s, ":");
                string_push_str(&mut s, krate.as_str());
                string_push_str(&mut s, "-");
                string_push_str(&mut s, version.as_str());
                string_push_str(&mut s, ":");
                let path = forward_slashes(path.as_str());
                string_push_str(&mut s, path.as_str());
                Some(s)
            },
            None => None,
        },
    }
}

/// The file path of a raw path that is not mapped by the extra mapper, given
/// its special path (if any), the base path and whether the raw path is absolute:
/// without local access the special path, or else the raw path; with local
/// access the file itself (the raw path when it is absolute, else the raw
/// path resolved against the base), mapped to the special path if there is
/// one, and a relative raw path keeps its own text as its mapped path when it
/// has no special one.
pub open spec fn file_path_for(
    base: BasePath,
    raw_path: Seq<char>,
    special: Option<Seq<char>>,
    is_absolute: bool,
    result: FilePath,
) -> bool {
    match base {
        BasePath::NoLocalSourceFileAccess => result matches FilePath::NonLocal(s) && s@ == (match special {
            Some(p) => p,
            None => raw_path,
        }),
        BasePath::CanReferToLocalFiles(b) => if is_absolute {
            match special {
                Some(p) => result matches FilePath::LocalMapped { local, mapped } && mapped@ == p && local
                    == path_buf_of(raw_path),
                None => result matches FilePath::Local(local) && local == path_buf_of(raw_path),
            }
        } else {
            result matches FilePath::LocalMapped { local, mapped } && local == joined_path(b, raw_path) && mapped@
                == (match special {
                Some(p) => p,
                None => raw_path,
            })
        },
    }
}

/// The shape of the file path of a raw path that the extra mapper maps:
/// without local access a non-local path; with local access the file itself
/// (the raw path, or the raw path resolved against the base, as `make_abs_path`
/// gives it) mapped to what the extra mapper answered.
pub open spec fn extra_mapped_file_path(base: BasePath, raw_path: Seq<char>, result: FilePath) -> bool {
    match base {
        BasePath::NoLocalSourceFileAccess => result is NonLocal,
        BasePath::CanReferToLocalFiles(b) => result matches FilePath::LocalMapped { local, .. } && (local
            == path_buf_of(raw_path) || local == joined_path(b, raw_path)),
    }
}

/// The file path of a raw path that the extra mapper maps to `mapped`:
/// without local access that path itself; with local access the file (the
/// raw path, or the raw path resolved against the base) mapped to it.
pub open spec fn mapped_by_extra(base: BasePath, raw_path: Seq<char>, mapped: Seq<char>, result: FilePath) -> bool {
    match base {
        BasePath::NoLocalSourceFileAccess => result matches FilePath::NonLocal(s) && s@ == mapped,
        BasePath::CanReferToLocalFiles(b) => result matches FilePath::LocalMapped { local, mapped: m } && m@
            == mapped && (local == path_buf_of(raw_path) || local == joined_path(b, raw_path)),
    }
}

/// Maps raw source paths, remembering each answer.
pub struct PathMapper<E: ExtraPathMapper> {
    base_path: BasePath,
    cache: StringHashMap<FilePath>,
    extra_mapper: Option<E>,
    regexes: PathRegexes,
}

/// The compiled regexes of the two path patterns.
struct PathRegexes {
    rustc: Regex,
    cargo_dep: Regex,
}

impl PathRegexes {
    /// The two regexes are those of the two path patterns.
    #[verifier::type_invariant]
    closed spec fn compiled(&self) -> bool {
        &&& self.rustc == regex_of(rustc_pattern())
        &&& self.cargo_dep == regex_of(cargo_dep_pattern())
    }

    fn new() -> (r: Self)
        ensures
            r.rustc == regex_of(rustc_pattern()),
            r.cargo_dep == regex_of(cargo_dep_pattern()),
    {
        PathRegexes {
            rustc: compile_path_regex("^/rustc/(?P<rev>[0-9a-f]+)\\\\?[/\\\\](?P<path>.*)$"),
            cargo_dep: compile_path_regex(
                "[/\\\\]\\.cargo[/\\\\]registry[/\\\\]src[/\\\\](?P<registry>[^/\\\\]+)[/\\\\](?P<crate>[^/]+)-(?P<version>[0-9]+\\.[0-9]+\\.[0-9]+)[/\\\\](?P<path>.*)$",
            ),
        }
    }

    /// The special path of a raw path (see `special_path`).
    fn special_path_for(&self, raw_path: &str) -> (r: Option<String>)
        ensures
            match r {
                Some(p) => special_path(raw_path@) == Some(p@),
                None => special_path(raw_path@) is None,
            },
    {
        proof {
            use_type_invariant(self);
        }
        let rustc = rustc_captures(&self.rustc, raw_path);
        let cargo = match rustc {
            Some(_) => None,
            None => cargo_captures(&self.cargo_dep, raw_path),
        };
        special_path_for_captures(rustc, cargo)
    }
}

impl<E: ExtraPathMapper> PathMapper<E> {
    /// The answers given so far, by raw path.
    pub closed spec fn cache(&self) -> Map<Seq<char>, FilePath> {
        self.cache@
    }

    /// The base path.
    pub closed spec fn spec_base_path(&self) -> BasePath {
        self.base_path
    }

    /// Whether there is an extra mapper.
    pub closed spec fn has_extra_mapper(&self) -> bool {
        self.extra_mapper is Some
    }

    /// What the extra mapper answers for `raw_path` in its present state;
    /// `None` without an extra mapper or where it does not map the path.
    pub closed spec fn extra_answer(&self, raw_path: Seq<char>) -> Option<Seq<char>> {
        match self.extra_mapper {
            Some(e) => e.answer(raw_path),
            None => None,
        }
    }

    pub fn new(base_path: &BasePath) -> (m: Self)
        ensures
            m.spec_base_path() == *base_path,
            m.cache() == Map::<Seq<char>, FilePath>::empty(),
            !m.has_extra_mapper(),
    {
        Self::new_with_maybe_extra_mapper(base_path, None)
    }

    pub fn new_with_maybe_extra_mapper(base_path: &BasePath, extra_mapper: Option<E>) -> (m: Self)
        ensures
            m.spec_base_path() == *base_path,
            m.cache() == Map::<Seq<char>, FilePath>::empty(),
            m.has_extra_mapper() == extra_mapper is Some,
    {
        PathMapper {
            base_path: base_path.clone(),
            cache: StringHashMap::new(),
            extra_mapper,
            regexes: PathRegexes::new(),
        }
    }

    /// Map the raw path to a `FilePath`.
    ///
    /// If the base path is `BasePath::CanReferToLocalFiles`, raw_path can be a
    /// relative or an absolute path on the local machine which is resolved with
    /// respect to it. A path that the extra mapper does not map is answered from
    /// the answers given before when it was asked before; otherwise its answer
    /// follows from its special path and is remembered.
    pub fn map_path(&mut self, raw_path: &str) -> (r: FilePath)
        ensures
            final(self).spec_base_path() == old(self).spec_base_path(),
            final(self).has_extra_mapper() == old(self).has_extra_mapper(),
            !old(self).has_extra_mapper() && old(self).cache().contains_key(raw_path@) ==> r == old(self).cache()[raw_path@]
                && final(self).cache() == old(self).cache(),
            final(self).cache() == old(self).cache() || final(self).cache() == old(self).cache().insert(raw_path@, r),
            !old(self).has_extra_mapper() ==> final(self).cache() == old(self).cache().insert(raw_path@, r),
            !old(self).cache().contains_key(raw_path@) && final(self).cache() != old(self).cache() ==> exists|
                is_absolute: bool,
            | file_path_for(old(self).spec_base_path(), raw_path@, special_path(raw_path@), is_absolute, r),
            final(self).cache() == old(self).cache() ==> (old(self).cache().contains_key(raw_path@) && r == old(
                self,
            ).cache()[raw_path@]) || (old(self).has_extra_mapper() && extra_mapped_file_path(
                old(self).spec_base_path(),
                raw_path@,
                r,
            )),
            old(self).extra_answer(raw_path@) matches Some(m) ==> final(self).cache() == old(self).cache()
                && mapped_by_extra(old(self).spec_base_path(), raw_path@, m, r),
            old(self).extra_answer(raw_path@) is None && old(self).cache().contains_key(raw_path@)
                ==> r == old(self).cache()[raw_path@] && final(self).cache() == old(self).cache(),
            old(self).extra_answer(raw_path@) is None && !old(self).cache().contains_key(raw_path@)
                ==> final(self).cache() == old(self).cache().insert(raw_path@, r) && exists|is_absolute: bool|
                file_path_for(old(self).spec_base_path(), raw_path@, special_path(raw_path@), is_absolute, r),
    {
        let mut extra = self.extra_mapper.take();
        let extra_mapped = match &mut extra {
            Some(extra_mapper) => extra_mapper.map_path(raw_path),
            None => None,
        };
        self.extra_mapper = extra;
        if let Some(mapped_path) = extra_mapped {
            let file_path = match &self.base_path {
                BasePath::NoLocalSourceFileAccess => FilePath::NonLocal(mapped_path),
                BasePath::CanReferToLocalFiles(base) => FilePath::LocalMapped {
                    local: make_abs_path(base, raw_path),
                    mapped: mapped_path,
                },
            };
            return file_path;
        }
        if let Some(value) = self.cache.get(raw_path) {
            assert(self.cache@.insert(raw_path@, *value) == self.cache@);
            return value.clone();
        }
        let mapped_path = self.regexes.special_path_for(raw_path);
        let ghost special = special_path(raw_path@);
        let ghost absolute: bool = false;
        let file_path = match &self.base_path {
            BasePath::CanReferToLocalFiles(base) => {
                let is_absolute = path_is_absolute(raw_path);
                proof {
                    absolute = is_absolute;
                }
                if is_absolute {
                    let local = path_buf_from(raw_path);
                    match mapped_path {
                        Some(mapped) => FilePath::LocalMapped { local, mapped },
                        None => FilePath::Local(local),
                    }
                } else {
                    let local = join_path(base, raw_path);
                    let mapped = match mapped_path {
                        Some(mapped) => mapped,
                        None => raw_path.to_owned(),
                    };
                    FilePath::LocalMapped { local, mapped }
                }
            },
            BasePath::NoLocalSourceFileAccess => FilePath::NonLocal(
                match mapped_path {
                    Some(mapped) => mapped,
                    None => raw_path.to_owned(),
                },
            ),
        };
        assert(file_path_for(self.base_path, raw_path@, special, absolute, file_path));
        self.cache.insert(raw_path.to_owned(), file_path.clone());
        file_path
    }
}

/// Without an extra mapper, mapping a raw path a second time gives the answer
/// of the first time: the first answer is remembered, and a remembered answer
/// is given back.
pub proof fn law_map_path_is_stable<E: ExtraPathMapper>(
    before: PathMapper<E>,
    between: PathMapper<E>,
    raw_path: Seq<char>,
    first: FilePath,
    second: FilePath,
)
    requires
        !before.has_extra_mapper(),
        between.has_extra_mapper() == before.has_extra_mapper(),
        between.cache() == before.cache().insert(raw_path, first),
        !between.has_extra_mapper() && between.cache().contains_key(raw_path) ==> second == between.cache()[raw_path],
    ensures
        second == first,
{
}


/// A raw path that the extra mapper does not map is answered as though there
/// were no extra mapper: without local access, a path of the Rust sources
/// (one that the rustc pattern captures with a revision and a path) gives
/// the non-local path `git:github.com/rust-lang/rust:<path>:<rev>`, never
/// the raw path itself, and that answer is remembered.
pub proof fn law_unmapped_rust_source_paths_get_their_git_path<E: ExtraPathMapper>(
    before: PathMapper<E>,
    after: PathMapper<E>,
    raw_path: Seq<char>,
    rev: Seq<char>,
    path: Seq<char>,
    r: FilePath,
)
    requires
        before.spec_base_path() is NoLocalSourceFileAccess,
        before.extra_answer(raw_path) is None,
        !before.cache().contains_key(raw_path),
        rustc_path_captures(raw_path) == Some((rev, path)),
        before.extra_answer(raw_path) is None && !before.cache().contains_key(raw_path) ==> after.cache()
            == before.cache().insert(raw_path, r) && exists|is_absolute: bool|
            file_path_for(before.spec_base_path(), raw_path, special_path(raw_path), is_absolute, r),
    ensures
        r matches FilePath::NonLocal(s) && s@ == "git:github.com/rust-lang/rust:"@ + with_forward_slashes(path) + ":"@
            + rev,
        after.cache().contains_key(raw_path) && after.cache()[raw_path] == r,
{
    let is_absolute = choose|is_absolute: bool|
        file_path_for(before.spec_base_path(), raw_path, special_path(raw_path), is_absolute, r);
}

/// Asking twice for a raw path that the extra mapper does not map gives the
/// same answer both times: the first answer is remembered and given back,
/// whether or not there is an extra mapper.
pub proof fn law_unmapped_paths_are_stable<E: ExtraPathMapper>(
    before: PathMapper<E>,
    between: PathMapper<E>,
    raw_path: Seq<char>,
    first: FilePath,
    second: FilePath,
)
    requires
        between.extra_answer(raw_path) is None,
        between.cache() == before.cache().insert(raw_path, first),
        between.extra_answer(raw_path) is None && between.cache().contains_key(raw_path) ==> second
            == between.cache()[raw_path],
    ensures
        second == first,
{
}

/// `path` itself when it is absolute, else `path` resolved against `base`.
/// What counts as absolute depends on the platform, so which of the two it
/// is goes unsaid.
fn make_abs_path(base: &PathBuf, path: &str) -> (p: PathBuf)
    ensures
        p == path_buf_of(path@) || p == joined_path(*base, path@),
{
    if path_is_absolute(path) {
        path_buf_from(path)
    } else {
        join_path(base, path)
    }
}

} // verus!

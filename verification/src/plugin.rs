//! Plugin packages: their file names, attributes and metadata, and which
//! package a name the user gives refers to.
//!
//! Listing, copying and renaming the files in `Edgeless/Resource` happens
//! at the edge of the program; it hands over what the directory holds.
use crate::config::{extension, extension_of, file_name, file_name_of};
use crate::error::{EliError, ErrorKind};
use crate::kernel::{file_stem, file_stem_of};
use crate::localboost_publish::joined;
use crate::path::{components, path_less, sort_paths};
use crate::text::{
    chars_of, concat, ends_with, ends_with_chars, eq, eq_ignore_ascii_case, eq_ignore_case,
    last_index, last_index_of, lemma_last_index_bounds, lower_seq, slice, string_of,
};
use vstd::prelude::*;

verus! {

broadcast use vstd::seq_lib::to_multiset_contains;

/// How a package is loaded at boot.
#[derive(Clone, Copy, Debug, PartialEq, Eq, Structural)]
pub enum PluginAttribute {
    Normal,
    Frozen,
    LocalBoost,
}

pub open spec fn attribute_extension(a: PluginAttribute) -> Seq<char> {
    match a {
        PluginAttribute::Normal => "7z"@,
        PluginAttribute::Frozen => "7zf"@,
        PluginAttribute::LocalBoost => "7zl"@,
    }
}

pub open spec fn attribute_name(a: PluginAttribute) -> Seq<char> {
    match a {
        PluginAttribute::Normal => "Normal"@,
        PluginAttribute::Frozen => "Frozen"@,
        PluginAttribute::LocalBoost => "LocalBoost"@,
    }
}

/// The attribute a package's extension gives, in any letter case.
pub open spec fn attribute_of(path: Seq<char>) -> Option<PluginAttribute> {
    match extension(path) {
        Some(e) => if eq_ignore_case(e, "7z"@) {
            Some(PluginAttribute::Normal)
        } else if eq_ignore_case(e, "7zf"@) {
            Some(PluginAttribute::Frozen)
        } else if eq_ignore_case(e, "7zl"@) {
            Some(PluginAttribute::LocalBoost)
        } else {
            None
        },
        None => None,
    }
}

pub open spec fn spaces(n: nat) -> Seq<char>
    decreases n,
{
    if n == 0 {
        Seq::empty()
    } else {
        spaces((n - 1) as nat).push(' ')
    }
}

impl PluginAttribute {
    /// The file extension of the attribute.
    pub fn extension(self) -> (r: &'static str)
        ensures
            r@ == attribute_extension(self),
    {
        match self {
            PluginAttribute::Normal => "7z",
            PluginAttribute::Frozen => "7zf",
            PluginAttribute::LocalBoost => "7zl",
        }
    }

    /// The attribute of a package path, by its extension.
    pub fn from_path(path: &str) -> (r: Option<PluginAttribute>)
        ensures
            r == attribute_of(path@),
    {
        match extension_of(path) {
            Some(e) => {
                if eq_ignore_ascii_case(&e, &chars_of("7z")) {
                    Some(PluginAttribute::Normal)
                } else if eq_ignore_ascii_case(&e, &chars_of("7zf")) {
                    Some(PluginAttribute::Frozen)
                } else if eq_ignore_ascii_case(&e, &chars_of("7zl")) {
                    Some(PluginAttribute::LocalBoost)
                } else {
                    None
                }
            },
            None => None,
        }
    }

    /// The name shown for the attribute.
    pub fn to_string(&self) -> (r: String)
        ensures
            r@ == attribute_name(*self),
    {
        match self {
            PluginAttribute::Normal => "Normal".to_owned(),
            PluginAttribute::Frozen => "Frozen".to_owned(),
            PluginAttribute::LocalBoost => "LocalBoost".to_owned(),
        }
    }

    /// The name, left-aligned and filled with spaces to `width` characters.
    pub fn padded(&self, width: usize) -> (r: String)
        ensures
            r@ == attribute_name(*self) + spaces(
                if width > attribute_name(*self).len() {
                    (width - attribute_name(*self).len()) as nat
                } else {
                    0
                },
            ),
    {
        let mut out = chars_of(self.to_string().as_str());
        let ghost name = out@;
        let mut added: usize = 0;
        while out.len() < width
            invariant
                name == attribute_name(*self),
                out@ == name + spaces(added as nat),
                name.len() + added == out@.len(),
                out@.len() <= width || added == 0,
            decreases width - out.len(),
        {
            out.push(' ');
            added = added + 1;
            assert(out@ =~= name + spaces(added as nat));
        }
        assert(added == (if width > name.len() {
            (width - name.len()) as nat
        } else {
            0
        }));
        string_of(&out)
    }
}

/// What a package's file name says of it.
#[derive(Debug)]
pub struct Plugin {
    pub name: String,
    pub version: String,
    pub author: String,
    pub attribute: PluginAttribute,
    /// The name ends with the automatic build marker `（bot）`.
    pub automatically_built: bool,
}

pub open spec fn bot_marker() -> Seq<char> {
    seq!['\u{ff08}', 'b', 'o', 't', '\u{ff09}']
}

/// The plugin that a package file name describes:
/// `<NAME>_<VERSION>_<AUTHOR>[（bot）].<7z|7zf|7zl>`, split at the last two
/// underscores, no part empty.
pub open spec fn parse_plugin(path: Seq<char>) -> Option<
    (Seq<char>, Seq<char>, Seq<char>, PluginAttribute, bool),
> {
    match attribute_of(path) {
        None => None,
        Some(attribute) => {
            let full = file_stem(path);
            let auto = ends_with(full, bot_marker());
            let s = if auto {
                full.take(full.len() - 5)
            } else {
                full
            };
            match last_index(s, '_') {
                None => None,
                Some(k1) => match last_index(s.take(k1), '_') {
                    None => None,
                    Some(k2) => {
                        let name = s.take(k2);
                        let version = s.subrange(k2 + 1, k1);
                        let author = s.skip(k1 + 1);
                        if name.len() > 0 && version.len() > 0 && author.len() > 0 {
                            Some((name, version, author, attribute, auto))
                        } else {
                            None
                        }
                    },
                },
            }
        },
    }
}

pub open spec fn plugin_view(p: Plugin) -> (Seq<char>, Seq<char>, Seq<char>, PluginAttribute, bool) {
    (p.name@, p.version@, p.author@, p.attribute, p.automatically_built)
}

/// Why a package's file name cannot be read.
pub open spec fn parse_error_message(path: Seq<char>) -> Seq<char> {
    if attribute_of(path) is None {
        "unsupported plugin package extension: "@ + path
    } else {
        "plugin package name must use <NAME>_<VERSION>_<AUTHOR>[（bot）]: "@ + path
    }
}

/// Reads a package's file name.
pub fn parse(path: &str) -> (r: Result<Plugin, EliError>)
    ensures
        match parse_plugin(path@) {
            Some(v) => r matches Ok(p) && plugin_view(p) == v,
            None => r matches Err(e) && e.kind == ErrorKind::InvalidData && e.message@
                == parse_error_message(path@),
        },
{
    let attribute = match PluginAttribute::from_path(path) {
        Some(a) => a,
        None => {
            let m = concat(&chars_of("unsupported plugin package extension: "), &chars_of(path));
            return Err(EliError::new(ErrorKind::InvalidData, string_of(&m)));
        },
    };
    let full = file_stem_of(path);
    let marker = crate::api::literal_chars(&['\u{ff08}', 'b', 'o', 't', '\u{ff09}']);
    assert(marker@ =~= bot_marker());
    let auto = ends_with_chars(&full, &marker);
    let s = if auto {
        slice(&full, 0, full.len() - 5)
    } else {
        crate::text::copy_chars(&full)
    };
    let bad = EliError::new(
        ErrorKind::InvalidData,
        string_of(
            &concat(
                &chars_of("plugin package name must use <NAME>_<VERSION>_<AUTHOR>[（bot）]: "),
                &chars_of(path),
            ),
        ),
    );
    let k1 = match last_index_of(&s, '_') {
        Some(k) => k,
        None => {
            return Err(bad);
        },
    };
    proof {
        lemma_last_index_bounds(s@, '_');
    }
    let head = slice(&s, 0, k1);
    assert(head@ == s@.take(k1 as int));
    let k2 = match last_index_of(&head, '_') {
        Some(k) => k,
        None => {
            return Err(bad);
        },
    };
    proof {
        lemma_last_index_bounds(head@, '_');
    }
    let name = slice(&s, 0, k2);
    let version = slice(&s, k2 + 1, k1);
    let slen = s.len();
    let author = slice(&s, k1 + 1, slen);
    assert(name@ == s@.take(k2 as int));
    assert(author@ == s@.skip(k1 + 1));
    if name.len() == 0 || version.len() == 0 || author.len() == 0 {
        return Err(bad);
    }
    Ok(
        Plugin {
            name: string_of(&name),
            version: string_of(&version),
            author: string_of(&author),
            attribute,
            automatically_built: auto,
        },
    )
}

/// Whether a path names a package file at all.
pub fn is_plugin_package(path: &str) -> (r: bool)
    ensures
        r == (attribute_of(path@) is Some),
{
    PluginAttribute::from_path(path).is_some()
}

/// A name the user gives for a package: one plain file name or stem.
pub open spec fn package_name_ok(name: Seq<char>) -> bool {
    let cs = components(name);
    name.len() > 0 && cs.len() == 1 && cs[0].len() > 0 && cs[0] != seq!['.'] && cs[0] != seq![
        '.',
        '.',
    ]
}

pub fn validate_name(name: &str) -> (r: Result<(), EliError>)
    ensures
        match r {
            Ok(()) => package_name_ok(name@),
            Err(e) => !package_name_ok(name@) && e.kind == ErrorKind::InvalidInput && e.message@
                == "plugin must be a file name or file stem, not a path"@,
        },
{
    let n = chars_of(name);
    let cs = crate::path::components_of(&n);
    let dot = crate::api::literal_chars(&['.']);
    let dots = crate::api::literal_chars(&['.', '.']);
    assert(dot@ =~= seq!['.']);
    assert(dots@ =~= seq!['.', '.']);
    if n.len() == 0 || cs.len() != 1 || cs[0].len() == 0 || eq(&cs[0], &dot) || eq(&cs[0], &dots) {
        return Err(
            EliError::new(
                ErrorKind::InvalidInput,
                "plugin must be a file name or file stem, not a path".to_owned(),
            ),
        );
    }
    Ok(())
}

/// Index of the first package whose file name is `name`.
pub open spec fn exact_match(paths: Seq<Seq<char>>, name: Seq<char>, i: int) -> Option<int>
    decreases paths.len() - i,
{
    if i < 0 || i >= paths.len() {
        None
    } else if file_name(paths[i]) == name {
        Some(i)
    } else {
        exact_match(paths, name, i + 1)
    }
}

/// The indices of the packages whose file stem is `name`, in order.
pub open spec fn stem_matches(paths: Seq<Seq<char>>, name: Seq<char>, n: int) -> Seq<int>
    decreases n,
{
    if n <= 0 {
        Seq::empty()
    } else if file_stem(paths[n - 1]) == name {
        stem_matches(paths, name, n - 1).push(n - 1)
    } else {
        stem_matches(paths, name, n - 1)
    }
}

proof fn lemma_stem_matches_bounds(paths: Seq<Seq<char>>, name: Seq<char>, n: int)
    requires
        0 <= n,
    ensures
        forall|q: int|
            0 <= q < stem_matches(paths, name, n).len() ==> 0 <= #[trigger] stem_matches(
                paths,
                name,
                n,
            )[q] < n,
    decreases n,
{
    if n > 0 {
        lemma_stem_matches_bounds(paths, name, n - 1);
        let prev = stem_matches(paths, name, n - 1);
        if file_stem(paths[n - 1]) == name {
            assert(stem_matches(paths, name, n) == prev.push(n - 1));
        } else {
            assert(stem_matches(paths, name, n) == prev);
        }
    }
}

/// Which package a name refers to: the first with that file name, else
/// the only one with that stem; several with that stem are ambiguous.
pub open spec fn find_outcome(paths: Seq<Seq<char>>, name: Seq<char>) -> Result<int, ErrorKind> {
    if !package_name_ok(name) {
        Err(ErrorKind::InvalidInput)
    } else {
        match exact_match(paths, name, 0) {
            Some(i) => Ok(i),
            None => {
                let m = stem_matches(paths, name, paths.len() as int);
                if m.len() == 1 {
                    Ok(m[0])
                } else if m.len() > 1 {
                    Err(ErrorKind::InvalidInput)
                } else {
                    Err(ErrorKind::NotFound)
                }
            },
        }
    }
}

pub open spec fn path_views(v: Seq<String>) -> Seq<Seq<char>> {
    v.map_values(|s: String| s@)
}

/// What a failed look-up says: a name that is a path, the packages a stem
/// fits, or the directory and the name that was not found.
pub open spec fn find_message(paths: Seq<Seq<char>>, name: Seq<char>, resource_dir: Seq<char>) -> Seq<
    char,
> {
    let m = stem_matches(paths, name, paths.len() as int);
    if !package_name_ok(name) {
        "plugin must be a file name or file stem, not a path"@
    } else if m.len() > 1 {
        "plugin name is ambiguous: "@ + joined(m.map_values(|k: int| file_name(paths[k])), ", "@)
    } else {
        "plugin package was not found in "@ + resource_dir + ": "@ + name
    }
}

/// The package in `paths` (the packages of the resource directory
/// `resource_dir`, in listing order) that `name` refers to.
pub fn find(name: &str, paths: &Vec<String>, resource_dir: &str) -> (r: Result<usize, EliError>)
    ensures
        match r {
            Ok(i) => find_outcome(path_views(paths@), name@) == Ok::<int, ErrorKind>(i as int),
            Err(e) => find_outcome(path_views(paths@), name@) == Err::<int, ErrorKind>(e.kind)
                && e.message@ == find_message(path_views(paths@), name@, resource_dir@),
        },
{
    match validate_name(name) {
        Ok(()) => {},
        Err(e) => {
            return Err(e);
        },
    }
    let wanted = chars_of(name);
    let ghost pv = path_views(paths@);
    let mut i: usize = 0;
    while i < paths.len()
        invariant
            i <= paths.len(),
            pv == path_views(paths@),
            wanted@ == name@,
            package_name_ok(name@),
            exact_match(pv, name@, 0) == exact_match(pv, name@, i as int),
        decreases paths.len() - i,
    {
        assert(pv[i as int] == paths@[i as int]@);
        if eq(&file_name_of(paths[i].as_str()), &wanted) {
            return Ok(i);
        }
        i = i + 1;
    }
    let mut found: Vec<usize> = Vec::new();
    let mut j: usize = 0;
    while j < paths.len()
        invariant
            j <= paths.len(),
            pv == path_views(paths@),
            wanted@ == name@,
            package_name_ok(name@),
            exact_match(pv, name@, 0) is None,
            found@.len() == stem_matches(pv, name@, j as int).len(),
            forall|k: int|
                0 <= k < found@.len() ==> found@[k] as int == #[trigger] stem_matches(
                    pv,
                    name@,
                    j as int,
                )[k],
        decreases paths.len() - j,
    {
        assert(pv[j as int] == paths@[j as int]@);
        if eq(&file_stem_of(paths[j].as_str()), &wanted) {
            found.push(j);
        }
        j = j + 1;
    }
    if found.len() == 1 {
        Ok(found[0])
    } else if found.len() > 1 {
        let ghost m = stem_matches(pv, name@, paths@.len() as int);
        proof {
            lemma_stem_matches_bounds(pv, name@, paths@.len() as int);
        }
        let mut names: Vec<String> = Vec::new();
        let mut k: usize = 0;
        while k < found.len()
            invariant
                k <= found@.len(),
                found@.len() == m.len(),
                pv == path_views(paths@),
                forall|q: int| 0 <= q < found@.len() ==> found@[q] as int == #[trigger] m[q],
                forall|q: int| 0 <= q < m.len() ==> 0 <= #[trigger] m[q] < paths@.len(),
                path_views(names@) == m.map_values(|i: int| file_name(pv[i])).take(k as int),
            decreases found.len() - k,
        {
            let i = found[k];
            assert(found@[k as int] as int == m[k as int]);
            assert(pv[i as int] == paths@[i as int]@);
            let ghost before = path_views(names@);
            let entry = string_of(&file_name_of(paths[i].as_str()));
            assert(entry@ == file_name(pv[m[k as int]]));
            names.push(entry);
            proof {
                let target = m.map_values(|i: int| file_name(pv[i]));
                assert(path_views(names@) =~= before.push(file_name(pv[m[k as int]])));
                assert(target.take(k + 1) =~= target.take(k as int).push(target[k as int]));
            }
            k = k + 1;
        }
        assert(m.map_values(|i: int| file_name(pv[i])).take(found@.len() as int) =~= m.map_values(
            |i: int| file_name(pv[i]),
        ));
        let list = crate::localboost_publish::join_with(&names, ", ");
        let message = concat(&chars_of("plugin name is ambiguous: "), &chars_of(list.as_str()));
        Err(EliError::new(ErrorKind::InvalidInput, string_of(&message)))
    } else {
        let mut message = concat(&chars_of("plugin package was not found in "), &chars_of(resource_dir));
        message = concat(&message, &chars_of(": "));
        message = concat(&message, &wanted);
        Err(EliError::new(ErrorKind::NotFound, string_of(&message)))
    }
}

/// `paths` in path order: a permutation of `input`, each path not after
/// the next.
pub open spec fn sorted_permutation(s: Seq<Seq<char>>, input: Seq<Seq<char>>) -> bool {
    s.to_multiset() == input.to_multiset() && forall|a: int, b: int|
        0 <= a < b < s.len() ==> !path_less(s[b], s[a])
}

/// `s[k]` is the first path of `s` that names no package.
pub open spec fn first_unparsed(s: Seq<Seq<char>>, k: int) -> bool {
    &&& 0 <= k < s.len()
    &&& parse_plugin(s[k]) is None
    &&& forall|j: int| 0 <= j < k ==> parse_plugin(#[trigger] s[j]) is Some
}

/// The plugins of the resource directory's packages, in path order; the
/// first package in that order that does not parse is the error.
pub fn list(paths: Vec<String>) -> (r: Result<Vec<Plugin>, EliError>)
    ensures
        match r {
            Ok(v) => exists|s: Seq<Seq<char>>|
                sorted_permutation(s, path_views(paths@)) && s.len() == v@.len() && forall|k: int|
                    0 <= k < s.len() ==> parse_plugin(#[trigger] s[k]) == Some(plugin_view(v@[k])),
            Err(e) => e.kind == ErrorKind::InvalidData && exists|s: Seq<Seq<char>>, k: int|
                sorted_permutation(s, path_views(paths@)) && first_unparsed(s, k) && e.message@
                    == parse_error_message(#[trigger] s[k]),
        },
{
    let ghost input = path_views(paths@);
    let sorted = sort_paths(paths);
    let ghost s = path_views(sorted@);
    let mut out: Vec<Plugin> = Vec::new();
    let mut i: usize = 0;
    while i < sorted.len()
        invariant
            i <= sorted@.len(),
            s == path_views(sorted@),
            s.to_multiset() == input.to_multiset(),
            input == path_views(paths@),
            forall|a: int, b: int| 0 <= a < b < s.len() ==> !path_less(s[b], s[a]),
            out@.len() == i,
            forall|k: int| 0 <= k < i ==> parse_plugin(#[trigger] s[k]) == Some(plugin_view(out@[k])),
        decreases sorted.len() - i,
    {
        assert(s[i as int] == sorted@[i as int]@);
        match parse(sorted[i].as_str()) {
            Ok(p) => {
                out.push(p);
            },
            Err(e) => {
                proof {
                    assert(sorted_permutation(s, input));
                    assert forall|j: int| 0 <= j < i implies parse_plugin(#[trigger] s[j]) is Some by {
                        assert(parse_plugin(s[j]) == Some(plugin_view(out@[j])));
                    }
                    assert(first_unparsed(s, i as int));
                    assert(e.message@ == parse_error_message(s[i as int]));
                }
                return Err(e);
            },
        }
        i = i + 1;
    }
    proof {
        assert(sorted_permutation(s, input));
    }
    Ok(out)
}

/// Checks a package that is to be stored: it must be a file with a
/// package name; the answer is the file name it is stored under.
pub fn store(source: &str, is_file: bool) -> (r: Result<String, EliError>)
    ensures
        !is_file ==> (r matches Err(e) && e.kind == ErrorKind::InvalidInput && e.message@
            == "plugin package is not a file: "@ + source@),
        is_file ==> match parse_plugin(source@) {
            Some(_) => r matches Ok(n) && n@ == file_name(source@),
            None => r matches Err(e) && e.kind == ErrorKind::InvalidData && e.message@
                == parse_error_message(source@),
        },
{
    if !is_file {
        let m = concat(&chars_of("plugin package is not a file: "), &chars_of(source));
        return Err(EliError::new(ErrorKind::InvalidInput, string_of(&m)));
    }
    match parse(source) {
        Ok(_) => Ok(string_of(&file_name_of(source))),
        Err(e) => Err(e),
    }
}

/// `Path::with_extension`: the path with its file's extension replaced.
pub open spec fn with_extension(path: Seq<char>, ext: Seq<char>) -> Seq<char> {
    let name = file_name(path);
    path.take(path.len() - name.len()) + file_stem(path) + seq!['.'] + ext
}

pub fn with_extension_of(path: &str, ext: &str) -> (r: String)
    ensures
        r@ == with_extension(path@, ext@),
{
    let p = chars_of(path);
    let name = file_name_of(path);
    proof {
        lemma_last_index_bounds(path@, '/');
        lemma_last_index_bounds(path@, '\\');
    }
    assert(name@.len() <= p@.len());
    let dir = slice(&p, 0, p.len() - name.len());
    let mut out = concat(&dir, &file_stem_of(path));
    out.push('.');
    out = concat(&out, &chars_of(ext));
    string_of(&out)
}

/// What changing a package's attribute does.
#[derive(Debug)]
pub enum AttributeChange {
    /// The package already has the attribute.
    Keep(String),
    /// Rename the package, unless the new name is taken.
    Rename { from: String, to: String },
}

proof fn lemma_last_index_append(a: Seq<char>, b: Seq<char>, c: char)
    requires
        !b.contains(c),
    ensures
        last_index(a + b, c) == last_index(a, c),
    decreases b.len(),
{
    if b.len() == 0 {
        assert(a + b =~= a);
    } else {
        assert((a + b).last() == b.last());
        assert((a + b).drop_last() =~= a + b.drop_last());
        assert(!b.drop_last().contains(c)) by {
            if b.drop_last().contains(c) {
                let j = choose|j: int| 0 <= j < b.drop_last().len() && b.drop_last()[j] == c;
                assert(b[j] == c);
            }
        }
        lemma_last_index_append(a, b.drop_last(), c);
    }
}

proof fn lemma_after_last_index(s: Seq<char>, c: char, j: int)
    requires
        0 <= j < s.len(),
        match last_index(s, c) {
            Some(k) => k < j,
            None => true,
        },
    ensures
        s[j] != c,
    decreases s.len(),
{
    if s.last() != c {
        if j < s.len() - 1 {
            lemma_after_last_index(s.drop_last(), c, j);
        }
    }
}

/// Where the file name of `path` starts.
pub open spec fn name_start(path: Seq<char>) -> int {
    let a = match last_index(path, '/') {
        Some(k) => k,
        None => -1,
    };
    let b = match last_index(path, '\\') {
        Some(k) => k,
        None => -1,
    };
    (if a > b {
        a
    } else {
        b
    }) + 1
}

/// The file name of a path with another name in place of its own is that
/// name, when it holds no separator.
proof fn lemma_file_name_replaced(path: Seq<char>, name: Seq<char>)
    requires
        !name.contains('/'),
        !name.contains('\\'),
    ensures
        file_name(path.take(name_start(path)) + name) == name,
{
    let m = name_start(path);
    lemma_last_index_bounds(path, '/');
    lemma_last_index_bounds(path, '\\');
    let dir = path.take(m);
    assert forall|j: int| m <= j < path.len() implies path[j] != '/' && path[j] != '\\' by {
        lemma_after_last_index(path, '/', j);
        lemma_after_last_index(path, '\\', j);
    }
    crate::text::lemma_last_index_prefix(path, '/', m);
    crate::text::lemma_last_index_prefix(path, '\\', m);
    lemma_last_index_append(dir, name, '/');
    lemma_last_index_append(dir, name, '\\');
    assert((dir + name).skip(m) =~= name);
}

/// Changing a package's attribute renames it to a package that has the new
/// attribute and the same file stem, in the same directory.
pub proof fn lemma_attribute_change(path: Seq<char>, attribute: PluginAttribute)
    requires
        attribute_of(path) is Some,
    ensures
        attribute_of(with_extension(path, attribute_extension(attribute))) == Some(attribute),
        file_stem(with_extension(path, attribute_extension(attribute))) == file_stem(path),
        with_extension(path, attribute_extension(attribute)).take(name_start(path)) == path.take(
            name_start(path),
        ),
{
    reveal_strlit("7z");
    reveal_strlit("7zf");
    reveal_strlit("7zl");
    let ext = attribute_extension(attribute);
    let name = file_name(path);
    let stem = file_stem(path);
    let k = crate::api::extension_dot(name)->0;
    lemma_last_index_bounds(path, '/');
    lemma_last_index_bounds(path, '\\');
    assert(name =~= path.skip(name_start(path)));
    assert(0 <= name_start(path) <= path.len());
    lemma_last_index_bounds(name, '.');
    assert(stem == name.take(k) && 0 < k < name.len());
    let new_name = stem + seq!['.'] + ext;
    assert(!ext.contains('.') && !ext.contains('/') && !ext.contains('\\'));
    assert(!stem.contains('/') && !stem.contains('\\')) by {
        assert forall|j: int| 0 <= j < stem.len() implies stem[j] != '/' && stem[j] != '\\' by {
            assert(stem[j] == path[name_start(path) + j]);
            lemma_after_last_index(path, '/', name_start(path) + j);
            lemma_after_last_index(path, '\\', name_start(path) + j);
        }
    }
    assert(!new_name.contains('/') && !new_name.contains('\\')) by {
        assert forall|j: int| 0 <= j < new_name.len() implies new_name[j] != '/' && new_name[j]
            != '\\' by {
            if j < stem.len() {
                assert(new_name[j] == stem[j]);
            } else if j > stem.len() {
                assert(new_name[j] == ext[j - stem.len() - 1]);
            }
        }
    }
    let t = with_extension(path, ext);
    assert(t =~= path.take(name_start(path)) + new_name);
    lemma_file_name_replaced(path, new_name);
    assert(file_name(t) == new_name);
    lemma_last_index_append(stem + seq!['.'], ext, '.');
    assert(new_name =~= (stem + seq!['.']) + ext);
    assert((stem + seq!['.']).last() == '.');
    assert(last_index(new_name, '.') == Some(stem.len() as int));
    assert(new_name.len() > 2);
    assert(new_name.skip(stem.len() + 1int) =~= ext);
    assert(new_name.take(stem.len() as int) =~= stem);
    assert(extension(t) == Some(ext));
    assert(t.take(name_start(path)) =~= path.take(name_start(path)));
    assert(lower_seq("7z"@) =~= "7z"@);
    assert(lower_seq("7zf"@) =~= "7zf"@);
    assert(lower_seq("7zl"@) =~= "7zl"@);
}

/// Changing the attribute of the package at `source`.
pub fn set_attribute(source: &str, attribute: PluginAttribute) -> (r: AttributeChange)
    ensures
        attribute_of(source@) == Some(attribute) ==> (r matches AttributeChange::Keep(p) && p@
            == source@),
        attribute_of(source@) != Some(attribute) ==> (r matches AttributeChange::Rename { from, to }
            && from@ == source@ && to@ == with_extension(source@, attribute_extension(attribute))),
{
    if PluginAttribute::from_path(source) == Some(attribute) {
        AttributeChange::Keep(source.to_owned())
    } else {
        AttributeChange::Rename {
            from: source.to_owned(),
            to: with_extension_of(source, attribute.extension()),
        }
    }
}

/// Retiring a package: it is frozen, then moved into the outdated
/// packages directory under the frozen file name.
#[derive(Debug)]
pub struct OutdatePlan {
    /// The package path after freezing; the source itself when frozen.
    pub frozen: String,
    /// Whether the package must first be renamed to `frozen`.
    pub rename: bool,
    /// The file name inside the outdated packages directory.
    pub destination_name: String,
}

pub open spec fn frozen_path(source: Seq<char>) -> Seq<char> {
    if attribute_of(source) == Some(PluginAttribute::Frozen) {
        source
    } else {
        with_extension(source, "7zf"@)
    }
}

pub fn outdate(source: &str) -> (r: OutdatePlan)
    ensures
        r.frozen@ == frozen_path(source@),
        r.rename == (attribute_of(source@) != Some(PluginAttribute::Frozen)),
        r.destination_name@ == file_name(frozen_path(source@)),
{
    let frozen_attr = PluginAttribute::from_path(source) == Some(PluginAttribute::Frozen);
    let frozen = if frozen_attr {
        source.to_owned()
    } else {
        with_extension_of(source, "7zf")
    };
    let destination_name = string_of(&file_name_of(frozen.as_str()));
    OutdatePlan { frozen, rename: !frozen_attr, destination_name }
}

/// The package that deleting `name` removes.
pub fn delete(name: &str, paths: &Vec<String>, resource_dir: &str) -> (r: Result<usize, EliError>)
    ensures
        match r {
            Ok(i) => find_outcome(path_views(paths@), name@) == Ok::<int, ErrorKind>(i as int),
            Err(e) => find_outcome(path_views(paths@), name@) == Err::<int, ErrorKind>(e.kind)
                && e.message@ == find_message(path_views(paths@), name@, resource_dir@),
        },
{
    find(name, paths, resource_dir)
}

} // verus!

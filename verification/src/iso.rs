//! The entries of an ISO image that a kernel is taken from.
use crate::error::{EliError, ErrorKind};
use crate::text::{chars_of, eq, find_from, find_sub, lemma_find_from_bounds, slice, trim_start_by};
use vstd::prelude::*;

verus! {

/// An entry of the image's directory tree, as the ISO reader reports it.
#[derive(Debug)]
pub struct IsoEntry {
    pub name: String,
    pub is_directory: bool,
    /// Length of a file's contents; absent when the reader found no range.
    pub file_length: Option<u64>,
    pub children: Vec<IsoEntry>,
}

/// Total size of the files below a directory, when every file has a length.
pub open spec fn payload(node: IsoEntry) -> Option<nat>
    decreases node, 1nat, 0int,
{
    children_payload(node, node.children@.len() as int)
}

pub open spec fn children_payload(node: IsoEntry, n: int) -> Option<nat>
    decreases node, 0nat, n,
{
    if n <= 0 || n > node.children@.len() {
        Some(0)
    } else {
        let c = node.children@[n - 1];
        let own = if c.is_directory {
            proof {
                assert(decreases_to!(node => node.children));
                assert(decreases_to!(node.children => node.children@));
                assert(decreases_to!(node.children@ => node.children@[n - 1]));
            }
            payload(c)
        } else {
            match c.file_length {
                Some(l) => Some(l as nat),
                None => None,
            }
        };
        match (children_payload(node, n - 1), own) {
            (Some(a), Some(b)) => Some(a + b),
            _ => None,
        }
    }
}


/// What one child adds to its directory's payload.
pub open spec fn own_payload(c: IsoEntry) -> Option<nat> {
    if c.is_directory {
        payload(c)
    } else {
        match c.file_length {
            Some(l) => Some(l as nat),
            None => None,
        }
    }
}

proof fn lemma_children_payload_unfold(node: IsoEntry, n: int)
    requires
        0 < n <= node.children@.len(),
    ensures
        children_payload(node, n) == (match (
            children_payload(node, n - 1),
            own_payload(node.children@[n - 1]),
        ) {
            (Some(a), Some(b)) => Some(a + b),
            _ => None,
        }),
{
}

/// A payload is defined only when every earlier part is, and no part
/// exceeds the whole.
proof fn lemma_children_payload_prefix(node: IsoEntry, k: int, n: int)
    requires
        0 <= k <= n <= node.children@.len(),
        children_payload(node, n) is Some,
    ensures
        children_payload(node, k) is Some,
        children_payload(node, k)->0 <= children_payload(node, n)->0,
        k < n ==> own_payload(node.children@[k]) is Some && own_payload(node.children@[k])->0
            <= children_payload(node, n)->0,
    decreases n - k,
{
    if k < n {
        lemma_children_payload_unfold(node, n);
        lemma_children_payload_prefix(node, k, n - 1);
        if k < n - 1 {
            lemma_children_payload_prefix(node, k, n - 1);
            lemma_children_payload_prefix(node, k + 1, n - 1);
        }
    }
}

/// Total size of the files below a directory; a file without a length or
/// a total beyond `u64` is invalid data.
pub fn directory_payload_size(node: &IsoEntry) -> (r: Result<u64, EliError>)
    ensures
        match payload(*node) {
            Some(t) => if t <= u64::MAX {
                r matches Ok(v) && v == t
            } else {
                r matches Err(e) && e.kind == ErrorKind::InvalidData
            },
            None => r matches Err(e) && e.kind == ErrorKind::InvalidData,
        },
    decreases node, 1nat,
{
    let mut total: u64 = 0;
    let mut i: usize = 0;
    let n = node.children.len();
    assert(children_payload(*node, 0) == Some(0nat));
    while i < n
        invariant
            n == node.children@.len(),
            i <= n,
            children_payload(*node, i as int) == Some(total as nat),
        decreases n - i,
    {
        let child = &node.children[i];
        proof {
            lemma_children_payload_unfold(*node, i + 1);
        }
        let own: u64 = if child.is_directory {
            proof {
                assert(decreases_to!(*node => node.children));
                assert(decreases_to!(node.children => node.children@));
                assert(decreases_to!(node.children@ => node.children@[i as int]));
            }
            match directory_payload_size(child) {
                Ok(v) => v,
                Err(e) => {
                    proof {
                        if payload(*node) is Some {
                            lemma_children_payload_prefix(*node, i as int, n as int);
                        }
                    }
                    return Err(e);
                },
            }
        } else {
            match child.file_length {
                Some(l) => l,
                None => {
                    proof {
                        if payload(*node) is Some {
                            lemma_children_payload_prefix(*node, i as int, n as int);
                        }
                    }
                    return Err(
                        EliError::new(
                            ErrorKind::InvalidData,
                            "ISO file has no byte range".to_owned(),
                        ),
                    );
                },
            }
        };
        match total.checked_add(own) {
            Some(t) => {
                total = t;
            },
            None => {
                proof {
                    if payload(*node) is Some {
                        lemma_children_payload_prefix(*node, i + 1, n as int);
                    }
                }
                return Err(
                    EliError::new(ErrorKind::InvalidData, "ISO directory size overflow".to_owned()),
                );
            },
        }
        i = i + 1;
    }
    Ok(total)
}

/// Size of one file entry.
pub fn file_payload_size(node: &IsoEntry) -> (r: Result<u64, EliError>)
    ensures
        match node.file_length {
            Some(l) => r matches Ok(v) && v == l,
            None => r matches Err(e) && e.kind == ErrorKind::InvalidData && e.message@
                == "ISO file has no byte range: "@ + node.name@,
        },
{
    match node.file_length {
        Some(l) => Ok(l),
        None => {
            let m = crate::text::concat(&chars_of("ISO file has no byte range: "), &chars_of(node.name.as_str()));
            Err(EliError::new(ErrorKind::InvalidData, crate::text::string_of(&m)))
        },
    }
}

/// Index of the first child named `name`.
pub open spec fn child_named(cs: Seq<IsoEntry>, name: Seq<char>, i: int) -> Option<int>
    decreases cs.len() - i,
{
    if i < 0 || i >= cs.len() {
        None
    } else if cs[i].name@ == name {
        Some(i)
    } else {
        child_named(cs, name, i + 1)
    }
}

proof fn lemma_child_named_bounds(cs: Seq<IsoEntry>, name: Seq<char>, i: int)
    ensures
        child_named(cs, name, i) matches Some(k) ==> 0 <= k < cs.len(),
    decreases cs.len() - i,
{
    if !(i < 0 || i >= cs.len()) && cs[i].name@ != name {
        lemma_child_named_bounds(cs, name, i + 1);
    }
}

/// The entry at a `/`-separated path below `node` (leading separators
/// ignored; the node itself for an empty path or its own name).
pub open spec fn find_entry(node: IsoEntry, path: Seq<char>) -> Option<IsoEntry>
    decreases node,
{
    let p = trim_start_by(path, |c: char| c == '/');
    if p.len() == 0 || p == node.name@ {
        Some(node)
    } else {
        let first = match find_from(p, seq!['/'], 0) {
            Some(k) => p.take(k),
            None => p,
        };
        match child_named(node.children@, first, 0) {
            Some(i) => if 0 <= i < node.children@.len() {
                match find_from(p, seq!['/'], 0) {
                    Some(k) => {
                        proof {
                            assert(decreases_to!(node => node.children));
                            assert(decreases_to!(node.children => node.children@));
                            assert(decreases_to!(node.children@ => node.children@[i]));
                        }
                        find_entry(node.children@[i], p.skip(k + 1))
                    },
                    None => Some(node.children@[i]),
                }
            } else {
                None
            },
            None => None,
        }
    }
}


fn child_index(cs: &Vec<IsoEntry>, name: &Vec<char>) -> (r: Option<usize>)
    ensures
        match r {
            Some(i) => child_named(cs@, name@, 0) == Some(i as int),
            None => child_named(cs@, name@, 0) is None,
        },
{
    let mut i: usize = 0;
    while i < cs.len()
        invariant
            i <= cs.len(),
            child_named(cs@, name@, 0) == child_named(cs@, name@, i as int),
        decreases cs.len() - i,
    {
        if eq(&chars_of(cs[i].name.as_str()), name) {
            return Some(i);
        }
        i = i + 1;
    }
    None
}

/// The entry at a `/`-separated path below `node`, as the ISO reader's
/// path lookup finds it.
pub fn find_node<'a>(node: &'a IsoEntry, path: &Vec<char>) -> (r: Option<&'a IsoEntry>)
    ensures
        match find_entry(*node, path@) {
            Some(e) => r matches Some(x) && *x == e,
            None => r is None,
        },
    decreases node,
{
    let ghost pred = |c: char| c == '/';
    let mut start: usize = 0;
    while start < path.len() && path[start] == '/'
        invariant
            start <= path.len(),
            forall|j: int| 0 <= j < start ==> #[trigger] path@[j] == '/',
        decreases path.len() - start,
    {
        start = start + 1;
    }
    proof {
        crate::text::lemma_leading_exact(path@, pred, start as int);
    }
    let len = path.len();
    let p = slice(path, start, len);
    assert(p@ == trim_start_by(path@, pred));
    if p.len() == 0 || eq(&p, &chars_of(node.name.as_str())) {
        assert(find_entry(*node, path@) == Some(*node));
        return Some(node);
    }
    let slash_chars = crate::api::literal_chars(&['/']);
    assert(slash_chars@ =~= seq!['/']);
    let slash = find_sub(&p, &slash_chars);
    proof {
        lemma_find_from_bounds(p@, seq!['/'], 0);
    }
    let first = match slash {
        Some(k) => slice(&p, 0, k),
        None => crate::text::copy_chars(&p),
    };
    match slash {
        Some(k) => assert(first@ == p@.take(k as int)),
        None => {},
    }
    proof {
        lemma_child_named_bounds(node.children@, first@, 0);
    }
    match child_index(&node.children, &first) {
        Some(i) => {
            let child = &node.children[i];
            match slash {
                Some(k) => {
                    let plen = p.len();
                    let rest = slice(&p, k + 1, plen);
                    assert(rest@ == p@.skip(k + 1));
                    proof {
                        assert(decreases_to!(*node => node.children));
                        assert(decreases_to!(node.children => node.children@));
                        assert(decreases_to!(node.children@ => node.children@[i as int]));
                    }
                    assert(find_entry(*node, path@) == find_entry(node.children@[i as int], rest@));
                    find_node(child, &rest)
                },
                None => {
                    assert(find_entry(*node, path@) == Some(node.children@[i as int]));
                    Some(child)
                },
            }
        },
        None => None,
    }
}

/// A safe name for an extracted entry.
pub open spec fn entry_name_ok(name: Seq<char>) -> bool {
    name.len() > 0 && name != seq!['.'] && name != seq!['.', '.'] && !name.contains('/')
        && !name.contains('\\') && !name.contains('\0')
}

pub open spec fn file_entry_ok(c: IsoEntry) -> bool {
    !c.is_directory && entry_name_ok(c.name@) && c.file_length is Some
}

/// Every entry below a directory has a safe name, and every file a length.
pub open spec fn tree_ok(node: IsoEntry) -> bool
    decreases node, 1nat, 0int,
{
    children_ok(node, node.children@.len() as int)
}

pub open spec fn children_ok(node: IsoEntry, n: int) -> bool
    decreases node, 0nat, n,
{
    if n <= 0 || n > node.children@.len() {
        true
    } else {
        let c = node.children@[n - 1];
        children_ok(node, n - 1) && entry_name_ok(c.name@) && if c.is_directory {
            proof {
                assert(decreases_to!(node => node.children));
                assert(decreases_to!(node.children => node.children@));
                assert(decreases_to!(node.children@ => node.children@[n - 1]));
            }
            tree_ok(c)
        } else {
            file_entry_ok(c)
        }
    }
}

/// Whether a name is safe to extract.
pub fn validate_node_name(name: &str) -> (r: Result<(), EliError>)
    ensures
        match r {
            Ok(()) => entry_name_ok(name@),
            Err(e) => !entry_name_ok(name@) && e.kind == ErrorKind::InvalidData && e.message@
                == "ISO contains an unsafe entry name: \""@ + name@ + "\""@,
        },
{
    let c = chars_of(name);
    let dot = crate::api::literal_chars(&['.']);
    let dots = crate::api::literal_chars(&['.', '.']);
    assert(dot@ =~= seq!['.']);
    assert(dots@ =~= seq!['.', '.']);
    if c.len() == 0 || eq(&c, &dot) || eq(&c, &dots) || crate::text::contains_char(&c, '/') || crate::text::contains_char(&c, '\\')
        || crate::text::contains_char(&c, '\0') {
        let mut message = crate::text::concat(&chars_of("ISO contains an unsafe entry name: \""), &c);
        message = crate::text::concat(&message, &chars_of("\""));
        return Err(EliError::new(ErrorKind::InvalidData, crate::text::string_of(&message)));
    }
    Ok(())
}

/// Checks one file entry: not a directory, a safe name and a length.
pub fn validate_file_node(node: &IsoEntry) -> (r: Result<(), EliError>)
    ensures
        match r {
            Ok(()) => file_entry_ok(*node),
            Err(e) => !file_entry_ok(*node) && e.kind == ErrorKind::InvalidData && e.message@
                == if node.is_directory {
                "ISO entry is a directory, not a file: "@ + node.name@
            } else if !entry_name_ok(node.name@) {
                "ISO contains an unsafe entry name: \""@ + node.name@ + "\""@
            } else {
                "ISO file has no byte range: "@ + node.name@
            },
        },
{
    if node.is_directory {
        let m = crate::text::concat(&chars_of("ISO entry is a directory, not a file: "), &chars_of(node.name.as_str()));
        return Err(EliError::new(ErrorKind::InvalidData, crate::text::string_of(&m)));
    }
    match validate_node_name(node.name.as_str()) {
        Ok(()) => {},
        Err(e) => {
            return Err(e);
        },
    }
    match file_payload_size(node) {
        Ok(_) => Ok(()),
        Err(e) => Err(e),
    }
}

/// Checks every entry below a directory.
pub fn validate_tree(node: &IsoEntry) -> (r: Result<(), EliError>)
    ensures
        match r {
            Ok(()) => tree_ok(*node),
            Err(e) => !tree_ok(*node) && e.kind == ErrorKind::InvalidData,
        },
    decreases node, 1nat,
{
    let n = node.children.len();
    let mut i: usize = 0;
    while i < n
        invariant
            n == node.children@.len(),
            i <= n,
            children_ok(*node, i as int),
        decreases n - i,
    {
        let child = &node.children[i];
        let ok = match validate_node_name(child.name.as_str()) {
            Ok(()) => if child.is_directory {
                proof {
                    assert(decreases_to!(*node => node.children));
                    assert(decreases_to!(node.children => node.children@));
                    assert(decreases_to!(node.children@ => node.children@[i as int]));
                }
                validate_tree(child)
            } else {
                validate_file_node(child)
            },
            Err(e) => Err(e),
        };
        match ok {
            Ok(()) => {},
            Err(e) => {
                proof {
                    if tree_ok(*node) {
                        lemma_children_ok_prefix(*node, i + 1, n as int);
                    }
                }
                return Err(e);
            },
        }
        i = i + 1;
    }
    Ok(())
}

proof fn lemma_children_ok_prefix(node: IsoEntry, k: int, n: int)
    requires
        0 <= k <= n <= node.children@.len(),
        children_ok(node, n),
    ensures
        children_ok(node, k),
    decreases n - k,
{
    if k < n {
        lemma_children_ok_prefix(node, k, n - 1);
    }
}

pub open spec fn edgeless_word() -> Seq<char> {
    seq!['E', 'd', 'g', 'e', 'l', 'e', 's', 's']
}

pub open spec fn version_file_word() -> Seq<char> {
    seq!['v', 'e', 'r', 's', 'i', 'o', 'n', '.', 't', 'x', 't']
}

pub open spec fn boot_wim_path() -> Seq<char> {
    seq!['s', 'o', 'u', 'r', 'c', 'e', 's', '/', 'b', 'o', 'o', 't', '.', 'w', 'i', 'm']
}

/// The `Edgeless` directory and `sources/boot.wim` of an Edgeless ISO,
/// when both are present and safe to extract.
pub open spec fn iso_content(tree: IsoEntry) -> Option<(IsoEntry, IsoEntry)> {
    match find_entry(tree, edgeless_word()) {
        Some(e) => if !e.is_directory {
            None
        } else {
            match find_entry(e, version_file_word()) {
                Some(v) => if v.is_directory {
                    None
                } else {
                    match find_entry(tree, boot_wim_path()) {
                        Some(b) => if !b.is_directory && tree_ok(e) && file_entry_ok(b) {
                            Some((e, b))
                        } else {
                            None
                        },
                        None => None,
                    }
                },
                None => None,
            }
        },
        None => None,
    }
}

/// What is missing from an ISO, when an expected entry is missing or of
/// the wrong kind; checks below the `Edgeless` directory and of the boot
/// image's own entry report for themselves.
pub open spec fn iso_problem(tree: IsoEntry) -> Option<Seq<char>> {
    match find_entry(tree, edgeless_word()) {
        None => Some(
            "ISO does not contain Edgeless directory; parsed root entries: "@ + crate::localboost_publish::joined(
                tree.children@.map_values(|c: IsoEntry| c.name@),
                ", "@,
            ),
        ),
        Some(e) => if !e.is_directory {
            Some("ISO Edgeless entry is not a directory"@)
        } else {
            match find_entry(e, version_file_word()) {
                None => Some("ISO Edgeless directory does not contain version.txt"@),
                Some(v) => if v.is_directory {
                    Some("ISO Edgeless/version.txt is not a file"@)
                } else {
                    match find_entry(tree, boot_wim_path()) {
                        None => Some("ISO does not contain sources/boot.wim"@),
                        Some(b) => if b.is_directory {
                            Some("ISO sources/boot.wim is not a file"@)
                        } else {
                            None
                        },
                    }
                },
            }
        },
    }
}

/// Finds what a kernel is stored from in an Edgeless ISO.
pub fn required_iso_content(tree: &IsoEntry) -> (r: Result<(&IsoEntry, &IsoEntry), EliError>)
    ensures
        match iso_content(*tree) {
            Some((e, b)) => r matches Ok(p) && *p.0 == e && *p.1 == b,
            None => r matches Err(x) && x.kind == ErrorKind::InvalidData,
        },
        r matches Err(x) ==> (iso_problem(*tree) matches Some(m) ==> x.message@ == m),
{
    let edgeless_name = crate::api::literal_chars(&['E', 'd', 'g', 'e', 'l', 'e', 's', 's']);
    let version_name = crate::api::literal_chars(
        &['v', 'e', 'r', 's', 'i', 'o', 'n', '.', 't', 'x', 't'],
    );
    let wim_path = crate::api::literal_chars(
        &['s', 'o', 'u', 'r', 'c', 'e', 's', '/', 'b', 'o', 'o', 't', '.', 'w', 'i', 'm'],
    );
    assert(edgeless_name@ =~= edgeless_word());
    assert(version_name@ =~= version_file_word());
    assert(wim_path@ =~= boot_wim_path());
    let edgeless = match find_node(tree, &edgeless_name) {
        Some(e) => e,
        None => {
            let mut names: Vec<String> = Vec::new();
            let mut i: usize = 0;
            while i < tree.children.len()
                invariant
                    i <= tree.children@.len(),
                    crate::plugin::path_views(names@) == tree.children@.map_values(
                        |c: IsoEntry| c.name@,
                    ).take(i as int),
                decreases tree.children.len() - i,
            {
                let ghost before = crate::plugin::path_views(names@);
                let entry = crate::text::string_of(&chars_of(tree.children[i].name.as_str()));
                names.push(entry);
                proof {
                    let all = tree.children@.map_values(|c: IsoEntry| c.name@);
                    assert(crate::plugin::path_views(names@) =~= before.push(entry@));
                    assert(all.take(i + 1) =~= all.take(i as int).push(all[i as int]));
                }
                i = i + 1;
            }
            assert(tree.children@.map_values(|c: IsoEntry| c.name@).take(i as int) =~= tree.children@.map_values(
                |c: IsoEntry| c.name@,
            ));
            let list = crate::localboost_publish::join_with(&names, ", ");
            let m = crate::text::concat(
                &chars_of("ISO does not contain Edgeless directory; parsed root entries: "),
                &chars_of(list.as_str()),
            );
            return Err(EliError::new(ErrorKind::InvalidData, crate::text::string_of(&m)));
        },
    };
    if !edgeless.is_directory {
        return Err(
            EliError::new(ErrorKind::InvalidData, "ISO Edgeless entry is not a directory".to_owned()),
        );
    }
    match find_node(edgeless, &version_name) {
        Some(v) => {
            if v.is_directory {
                return Err(
                    EliError::new(
                        ErrorKind::InvalidData,
                        "ISO Edgeless/version.txt is not a file".to_owned(),
                    ),
                );
            }
        },
        None => {
            return Err(
                EliError::new(
                    ErrorKind::InvalidData,
                    "ISO Edgeless directory does not contain version.txt".to_owned(),
                ),
            );
        },
    }
    let boot_wim = match find_node(tree, &wim_path) {
        Some(b) => b,
        None => {
            return Err(
                EliError::new(
                    ErrorKind::InvalidData,
                    "ISO does not contain sources/boot.wim".to_owned(),
                ),
            );
        },
    };
    if boot_wim.is_directory {
        return Err(
            EliError::new(ErrorKind::InvalidData, "ISO sources/boot.wim is not a file".to_owned()),
        );
    }
    match validate_tree(edgeless) {
        Ok(()) => {},
        Err(e) => {
            return Err(e);
        },
    }
    match validate_file_node(boot_wim) {
        Ok(()) => {},
        Err(e) => {
            return Err(e);
        },
    }
    Ok((edgeless, boot_wim))
}

} // verus!

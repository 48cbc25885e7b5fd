//! Finding Edgeless boot disks: reading the platform's mount tables,
//! normalising the partition a user names, and choosing a boot disk.
//!
//! The mount tables, the directories and the version files are read at
//! the edge of the program; the text they hold is interpreted here.
use crate::error::{EliError, ErrorKind};
use crate::path::{
    components, lemma_lex_irreflexive, lemma_lex_total, lemma_lex_transitive, lex_less, path_eq,
    path_key, path_key_of, path_less, key_eq, key_less,
};
use crate::text::{
    chars_of, concat, copy_chars, eq, find_from, find_sub, is_ascii_alpha, lemma_find_from_bounds,
    lemma_rfind_upto_bounds, lines, lines_of, replace, replace_chars, rfind_sub, rfind_upto, slice,
    string_of, trim_end_by, upper, upper_char, views, words, words_of,
};
use vstd::prelude::*;
use vstd::string::StringSliceAdditionalSpecFns;

verus! {

broadcast use vstd::seq_lib::to_multiset_insert, vstd::seq_lib::to_multiset_contains, vstd::seq_lib::to_multiset_len;

/// The conventions of the platform the program runs on.
#[derive(Clone, Copy, Debug, PartialEq, Eq, Structural)]
pub enum Platform {
    Windows,
    Unix,
}

/// A mounted partition: its identifier (such as `U:` or `/dev/sdb1`) and
/// where it is mounted.
#[derive(Debug)]
pub struct MountedPartition {
    pub identifier: String,
    pub mount_point: String,
}

/// An Edgeless boot disk found on this computer.
#[derive(Debug)]
pub struct BootDisk {
    pub partition: String,
    pub mount_point: String,
    /// The whole content of `Edgeless/version.txt`.
    pub version: String,
}

/// How the boot disk was chosen.
#[derive(Clone, Copy, Debug, PartialEq, Eq, Structural)]
pub enum BootDiskSelectionSource {
    /// The user named the partition or mount point.
    Explicit,
    /// The library chose among the boot disks it found.
    Automatic,
}

#[derive(Debug)]
pub struct BootDiskSelection {
    pub selected: BootDisk,
    /// All boot disks considered; only the selected one when explicit.
    pub candidates: Vec<BootDisk>,
    pub source: BootDiskSelectionSource,
}

pub open spec fn part_view(p: MountedPartition) -> (Seq<char>, Seq<char>) {
    (p.identifier@, p.mount_point@)
}

pub open spec fn part_views(s: Seq<MountedPartition>) -> Seq<(Seq<char>, Seq<char>)> {
    s.map_values(|p: MountedPartition| part_view(p))
}

pub open spec fn disk_view(d: BootDisk) -> (Seq<char>, Seq<char>, Seq<char>) {
    (d.partition@, d.mount_point@, d.version@)
}

pub open spec fn disk_views(s: Seq<BootDisk>) -> Seq<(Seq<char>, Seq<char>, Seq<char>)> {
    s.map_values(|d: BootDisk| disk_view(d))
}

/// Undoes the octal escapes of mount tables for space, tab, line feed and
/// backslash, in this order.
pub open spec fn decode(p: Seq<char>) -> Seq<char> {
    replace(
        replace(replace(replace(p, "\\040"@, " "@), "\\011"@, "\t"@), "\\012"@, "\n"@),
        "\\134"@,
        "\\"@,
    )
}

/// A line of `/proc/self/mountinfo`: the mount point is the fifth field
/// before ` - `, the device the second field after it.
pub open spec fn linux_entry(line: Seq<char>) -> Option<(Seq<char>, Seq<char>)> {
    match find_from(line, " - "@, 0) {
        Some(k) => {
            let mount_fields = words(line.take(k));
            let filesystem_fields = words(line.skip(k + 3));
            if mount_fields.len() > 4 && filesystem_fields.len() > 1 {
                Some((decode(filesystem_fields[1]), decode(mount_fields[4])))
            } else {
                None
            }
        },
        None => None,
    }
}

/// A line of macOS `mount`: `<device> on <path> (<options>)`.
pub open spec fn macos_entry(line: Seq<char>) -> Option<(Seq<char>, Seq<char>)> {
    match find_from(line, " on "@, 0) {
        Some(k) => {
            let mounted_on = line.skip(k + 4);
            match rfind_upto(mounted_on, " ("@, mounted_on.len() as int) {
                Some(j) => Some((decode(line.take(k)), decode(mounted_on.take(j)))),
                None => None,
            }
        },
        None => None,
    }
}

pub open spec fn entry_of(linux: bool, line: Seq<char>) -> Option<(Seq<char>, Seq<char>)> {
    if linux {
        linux_entry(line)
    } else {
        macos_entry(line)
    }
}

/// The entries of the lines that describe a mount, in order; `linux`
/// chooses the Linux format over the macOS one.
pub open spec fn entries(ls: Seq<Seq<char>>, linux: bool) -> Seq<(Seq<char>, Seq<char>)>
    decreases ls.len(),
{
    if ls.len() == 0 {
        Seq::empty()
    } else {
        match entry_of(linux, ls[0]) {
            Some(e) => seq![e] + entries(ls.drop_first(), linux),
            None => entries(ls.drop_first(), linux),
        }
    }
}

/// Ordered by mount point with one partition per mount point, each taken
/// from `input`, and every mount point of `input` kept.
pub open spec fn unique_by_mount_point(
    out: Seq<(Seq<char>, Seq<char>)>,
    input: Seq<(Seq<char>, Seq<char>)>,
) -> bool {
    &&& forall|a: int, b: int| 0 <= a < b < out.len() ==> path_less(out[a].1, out[b].1)
    &&& forall|a: int| 0 <= a < out.len() ==> input.contains(#[trigger] out[a])
    &&& forall|k: int| 0 <= k < input.len() ==> has_mount_point(out, #[trigger] input[k].1)
}

/// Some entry of `out` is mounted at `m`.
pub open spec fn has_mount_point(out: Seq<(Seq<char>, Seq<char>)>, m: Seq<char>) -> bool {
    exists|a: int| 0 <= a < out.len() && path_eq(#[trigger] out[a].1, m)
}

fn decode_chars(p: &Vec<char>) -> (r: Vec<char>)
    ensures
        r@ == decode(p@),
{
    proof {
        reveal_strlit("\\040");
        reveal_strlit("\\011");
        reveal_strlit("\\012");
        reveal_strlit("\\134");
    }
    let a = replace_chars(p, &chars_of("\\040"), &chars_of(" "));
    let b = replace_chars(&a, &chars_of("\\011"), &chars_of("\t"));
    let c = replace_chars(&b, &chars_of("\\012"), &chars_of("\n"));
    replace_chars(&c, &chars_of("\\134"), &chars_of("\\"))
}

/// Undoes the escapes that mount tables use in paths.
pub fn decode_mount_path(path: &str) -> (r: String)
    ensures
        r@ == decode(path@),
{
    string_of(&decode_chars(&chars_of(path)))
}

fn linux_entry_of(line: &Vec<char>) -> (r: Option<MountedPartition>)
    ensures
        match linux_entry(line@) {
            Some(e) => r matches Some(p) && part_view(p) == e,
            None => r is None,
        },
{
    let sep = chars_of(" - ");
    proof {
        reveal_strlit(" - ");
    }
    match find_sub(line, &sep) {
        Some(k) => {
            proof {
                lemma_find_from_bounds(line@, sep@, 0);
            }
            let mount_fields = words_of(&slice(line, 0, k));
            let filesystem_fields = words_of(&slice(line, k + 3, line.len()));
            assert(line@.subrange(0, k as int) == line@.take(k as int));
            assert(line@.subrange(k + 3, line.len() as int) == line@.skip(k + 3));
            if mount_fields.len() > 4 && filesystem_fields.len() > 1 {
                let identifier = decode_chars(&filesystem_fields[1]);
                let mount_point = decode_chars(&mount_fields[4]);
                Some(
                    MountedPartition {
                        identifier: string_of(&identifier),
                        mount_point: string_of(&mount_point),
                    },
                )
            } else {
                None
            }
        },
        None => None,
    }
}

/// The partition that one line of macOS `mount` describes, if any.
pub fn parse_macos_line(line: &str) -> (r: Option<MountedPartition>)
    ensures
        match macos_entry(line@) {
            Some(e) => r matches Some(p) && part_view(p) == e,
            None => r is None,
        },
{
    macos_entry_of(&chars_of(line))
}

fn macos_entry_of(line: &Vec<char>) -> (r: Option<MountedPartition>)
    ensures
        match macos_entry(line@) {
            Some(e) => r matches Some(p) && part_view(p) == e,
            None => r is None,
        },
{
    let on = chars_of(" on ");
    let open = chars_of(" (");
    proof {
        reveal_strlit(" on ");
        reveal_strlit(" (");
    }
    assert(on@.len() == 4);
    assert(open@.len() == 2);
    match find_sub(line, &on) {
        Some(k) => {
            proof {
                lemma_find_from_bounds(line@, on@, 0);
                assert(find_from(line@, on@, 0) == Some(k as int));
                assert(k + on@.len() <= line@.len());
            }
            let len = line.len();
            let mounted_on = slice(line, k + 4, len);
            assert(mounted_on@ == line@.skip(k + 4));
            match rfind_sub(&mounted_on, &open) {
                Some(j) => {
                    proof {
                        lemma_rfind_upto_bounds(mounted_on@, open@, mounted_on.len() as int);
                    }
                    let identifier = decode_chars(&slice(line, 0, k));
                    let mount_point = decode_chars(&slice(&mounted_on, 0, j));
                    assert(line@.subrange(0, k as int) == line@.take(k as int));
                    assert(mounted_on@.subrange(0, j as int) == mounted_on@.take(j as int));
                    Some(
                        MountedPartition {
                            identifier: string_of(&identifier),
                            mount_point: string_of(&mount_point),
                        },
                    )
                },
                None => None,
            }
        },
        None => None,
    }
}

/// Keeps one partition per mount point, ordered by mount point.
pub fn unique_partitions(partitions: Vec<MountedPartition>) -> (r: Vec<MountedPartition>)
    ensures
        unique_by_mount_point(part_views(r@), part_views(partitions@)),
{
    let ghost input = part_views(partitions@);
    let mut out: Vec<MountedPartition> = Vec::new();
    let mut keys: Vec<Vec<u64>> = Vec::new();
    let n_items: usize = partitions.len();
    let ghost n = n_items as nat;
    let mut rest = partitions;
    let mut taken: usize = 0;
    assert(part_views(rest@) =~= input.skip(0));
    while rest.len() > 0
        invariant
            taken + rest@.len() == n,
            n <= usize::MAX,
            input.len() == n,
            part_views(rest@) == input.skip(taken as int),
            out@.len() == keys@.len(),
            forall|a: int| 0 <= a < keys@.len() ==> (#[trigger] keys@[a])@ == path_key(out@[a].mount_point@),
            forall|a: int, b: int| 0 <= a < b < out@.len() ==> lex_less(keys@[a]@, keys@[b]@),
            forall|a: int| 0 <= a < out@.len() ==> input.take(taken as int).contains(#[trigger] part_view(out@[a])),
            forall|k: int|
                #![trigger input[k]]
                0 <= k < taken ==> exists|a: int|
                    #![trigger keys@[a]]
                    0 <= a < out@.len() && keys@[a]@ == path_key(input[k].1),
        decreases rest.len(),
    {
        let ghost rest_before = part_views(rest@);
        let ghost rest_vec = rest@;
        let x = rest.remove(0);
        assert(part_view(x) == input[taken as int]) by {
            assert(rest_before[0] == input.skip(taken as int)[0]);
        }
        assert(rest@ == rest_vec.remove(0));
        assert(part_views(rest@) =~= rest_before.drop_first());
        assert(rest_before.drop_first() =~= input.skip(taken + 1));
        let kx = path_key_of(&chars_of(x.mount_point.as_str()));
        let mut j: usize = 0;
        while j < keys.len() && key_less(&keys[j], &kx)
            invariant
                j <= keys@.len(),
                forall|a: int| 0 <= a < j ==> lex_less(keys@[a]@, kx@),
            decreases keys.len() - j,
        {
            j = j + 1;
        }
        if j < keys.len() && key_eq(&keys[j], &kx) {
            proof {
                assert forall|a: int| 0 <= a < out@.len() implies input.take(taken + 1).contains(
                    #[trigger] part_view(out@[a]),
                ) by {
                    let w = choose|w: int| 0 <= w < taken && input.take(taken as int)[w] == part_view(out@[a]);
                    assert(input.take(taken + 1)[w] == part_view(out@[a]));
                }
                assert(keys@[j as int]@ == path_key(input[taken as int].1));
            }
        } else {
            proof {
                if j < keys@.len() {
                    lemma_lex_total(keys@[j as int]@, kx@);
                }
            }
            let ghost old_keys = keys@;
            let ghost old_out = out@;
            keys.insert(j, kx);
            out.insert(j, x);
            proof {
                assert forall|a: int, b: int| 0 <= a < b < out@.len() implies lex_less(
                    keys@[a]@,
                    keys@[b]@,
                ) by {
                    if b == j {
                    } else if a == j {
                        if b > j + 1 {
                            lemma_lex_transitive(keys@[a]@, old_keys[j as int]@, old_keys[b - 1]@);
                        }
                    } else if a < j && b > j {
                        if b > j + 1 {
                            lemma_lex_transitive(kx@, old_keys[j as int]@, old_keys[b - 1]@);
                        }
                        lemma_lex_transitive(keys@[a]@, kx@, old_keys[b - 1]@);
                    }
                }
                assert forall|a: int| 0 <= a < keys@.len() implies (#[trigger] keys@[a])@ == path_key(
                    out@[a].mount_point@,
                ) by {
                    if a < j {
                        assert(keys@[a] == old_keys[a]);
                    } else if a > j {
                        assert(keys@[a] == old_keys[a - 1]);
                    }
                }
                assert forall|a: int| 0 <= a < out@.len() implies input.take(taken + 1).contains(
                    #[trigger] part_view(out@[a]),
                ) by {
                    if a == j {
                        assert(input.take(taken + 1)[taken as int] == part_view(x));
                    } else {
                        let old_a = if a < j {
                            a
                        } else {
                            a - 1
                        };
                        assert(out@[a] == old_out[old_a]);
                        let w = choose|w: int| 0 <= w < taken && input.take(taken as int)[w] == part_view(old_out[old_a]);
                        assert(input.take(taken + 1)[w] == part_view(out@[a]));
                    }
                }
                assert forall|k: int| #![trigger input[k]] 0 <= k < taken + 1 implies exists|a: int|
                    #![trigger keys@[a]]
                    0 <= a < out@.len() && keys@[a]@ == path_key(input[k].1) by {
                    if k == taken {
                        assert(keys@[j as int]@ == path_key(input[k].1));
                    } else {
                        let a = choose|a: int| 0 <= a < old_out.len() && old_keys[a]@ == path_key(input[k].1);
                        if a < j {
                            assert(keys@[a] == old_keys[a]);
                        } else {
                            assert(keys@[a + 1] == old_keys[a]);
                        }
                    }
                }
            }
        }
        taken = taken + 1;
    }
    proof {
        assert(input.take(n as int) =~= input);
        assert forall|a: int, b: int| 0 <= a < b < part_views(out@).len() implies path_less(
            part_views(out@)[a].1,
            part_views(out@)[b].1,
        ) by {
            assert(keys@[a]@ == path_key(out@[a].mount_point@));
            assert(keys@[b]@ == path_key(out@[b].mount_point@));
        }
        assert forall|a: int| 0 <= a < part_views(out@).len() implies input.contains(
            #[trigger] part_views(out@)[a],
        ) by {
            assert(part_views(out@)[a] == part_view(out@[a]));
        }
        assert forall|k: int| 0 <= k < input.len() implies has_mount_point(
            part_views(out@),
            #[trigger] input[k].1,
        ) by {
            let a = choose|a: int| 0 <= a < out@.len() && keys@[a]@ == path_key(input[k].1);
            assert(part_views(out@)[a].1 == out@[a].mount_point@);
            assert(keys@[a]@ == path_key(out@[a].mount_point@));
            assert(path_eq(part_views(out@)[a].1, input[k].1));
        }
        assert(unique_by_mount_point(part_views(out@), input));
    }
    out
}


fn collect_entries(ls: &Vec<Vec<char>>, linux: bool) -> (r: Vec<MountedPartition>)
    ensures
        part_views(r@) == entries(views(ls@), linux),
{
    let ghost all = views(ls@);
    let mut out: Vec<MountedPartition> = Vec::new();
    let mut i: usize = 0;
    assert(all.skip(0) =~= all);
    while i < ls.len()
        invariant
            i <= ls.len(),
            all == views(ls@),
            part_views(out@) + entries(all.skip(i as int), linux) == entries(all, linux),
        decreases ls.len() - i,
    {
        let ghost before = part_views(out@);
        assert(all.skip(i as int).drop_first() =~= all.skip(i + 1));
        assert(all.skip(i as int)[0] == ls@[i as int]@);
        let e = if linux {
            linux_entry_of(&ls[i])
        } else {
            macos_entry_of(&ls[i])
        };
        match e {
            Some(p) => {
                out.push(p);
                assert(part_views(out@) =~= before + seq![entry_of(linux, ls@[i as int]@)->0]);
            },
            None => {},
        }
        i = i + 1;
    }
    assert(all.skip(ls.len() as int) =~= Seq::<Seq<char>>::empty());
    assert(part_views(out@) + Seq::empty() =~= part_views(out@));
    out
}

/// The mounted partitions in the text of `/proc/self/mountinfo`, one per
/// mount point, ordered by mount point.
pub fn parse_linux_mount_info(mount_info: &str) -> (r: Vec<MountedPartition>)
    ensures
        unique_by_mount_point(
            part_views(r@),
            entries(lines(mount_info@), true),
        ),
{
    let ls = lines_of(&chars_of(mount_info));
    unique_partitions(collect_entries(&ls, true))
}

/// The mounted partitions in the output of macOS `mount`, one per mount
/// point, ordered by mount point.
pub fn parse_macos_mount_table(mount_table: &str) -> (r: Vec<MountedPartition>)
    ensures
        unique_by_mount_point(
            part_views(r@),
            entries(lines(mount_table@), false),
        ),
{
    let ls = lines_of(&chars_of(mount_table));
    unique_partitions(collect_entries(&ls, false))
}

/// The form in which a partition the user names is compared: without
/// trailing separators and, on Windows, with an upper-case drive letter.
pub open spec fn normalized_partition(p: Seq<char>, platform: Platform) -> Seq<char> {
    match platform {
        Platform::Windows => {
            let v = trim_end_by(p, |c: char| separator(c, true));
            if v.len() == 2 && is_ascii_alpha(v[0]) && v[1] == ':' {
                seq![upper(v[0]), ':']
            } else {
                v
            }
        },
        Platform::Unix => if p == seq!['/'] {
            p
        } else {
            trim_end_by(p, |c: char| separator(c, false))
        },
    }
}

/// Path separators: `/`, and `\` where `backslash` holds.
pub open spec fn separator(c: char, backslash: bool) -> bool {
    c == '/' || (backslash && c == '\\')
}

/// A device path such as `/dev/sdb1` (never on Windows).
pub open spec fn device_identifier(p: Seq<char>, platform: Platform) -> bool {
    platform == Platform::Unix && components(p).len() >= 2 && components(p)[0].len() == 0
        && components(p)[1] == "dev"@
}

/// An absolute mount point: rooted at `/`, or on Windows a drive root such
/// as `U:\` or a network path starting with two separators.
pub open spec fn absolute_path(p: Seq<char>, platform: Platform) -> bool {
    match platform {
        Platform::Unix => p.len() > 0 && p[0] == '/',
        Platform::Windows => (p.len() >= 3 && is_ascii_alpha(p[0]) && p[1] == ':' && (p[2] == '\\'
            || p[2] == '/')) || (p.len() >= 2 && (p[0] == '\\' || p[0] == '/') && (p[1] == '\\'
            || p[1] == '/')),
    }
}

fn trim_end_separators(p: &Vec<char>, backslash: bool) -> (r: Vec<char>)
    ensures
        r@ == trim_end_by(p@, |c: char| separator(c, backslash)),
{
    let ghost pred = |c: char| separator(c, backslash);
    let mut end: usize = p.len();
    while end > 0 && (p[end - 1] == '/' || (backslash && p[end - 1] == '\\'))
        invariant
            end <= p.len(),
            forall|j: int| end <= j < p.len() ==> separator(#[trigger] p@[j], backslash),
        decreases end,
    {
        end = end - 1;
    }
    proof {
        assert forall|j: int| p.len() - (p.len() - end) <= j < p.len() implies pred(
            #[trigger] p@[j],
        ) by {
            assert(separator(p@[j], backslash));
        }
        crate::text::lemma_trailing_exact(p@, pred, p.len() - end);
    }
    slice(p, 0, end)
}

/// `normalized_partition` of a path the user named.
pub fn normalize_partition_identifier(partition: &str, platform: Platform) -> (r: String)
    ensures
        r@ == normalized_partition(partition@, platform),
{
    let p = chars_of(partition);
    match platform {
        Platform::Windows => {
            let v = trim_end_separators(&p, true);
            if v.len() == 2 && (('a' <= v[0] && v[0] <= 'z') || ('A' <= v[0] && v[0] <= 'Z'))
                && v[1] == ':' {
                let mut out: Vec<char> = Vec::new();
                out.push(upper_char(v[0]));
                out.push(':');
                assert(out@ =~= seq![upper(v@[0]), ':']);
                string_of(&out)
            } else {
                string_of(&v)
            }
        },
        Platform::Unix => {
            if p.len() == 1 && p[0] == '/' {
                assert(p@ =~= seq!['/']);
                string_of(&p)
            } else {
                assert(p@ != seq!['/']) by {
                    if p@ == seq!['/'] {
                        assert(p@[0] == '/');
                    }
                }
                string_of(&trim_end_separators(&p, false))
            }
        },
    }
}

/// Whether a path names a device rather than a mount point.
pub fn is_device_identifier(partition: &str, platform: Platform) -> (r: bool)
    ensures
        r == device_identifier(partition@, platform),
{
    match platform {
        Platform::Windows => false,
        Platform::Unix => {
            let cs = components_of_str(partition);
            proof {
                reveal_strlit("dev");
            }
            cs.len() >= 2 && cs[0].len() == 0 && eq(&cs[1], &chars_of("dev"))
        },
    }
}

fn components_of_str(p: &str) -> (r: Vec<Vec<char>>)
    ensures
        views(r@) == components(p@),
{
    crate::path::components_of(&chars_of(p))
}

/// Whether a mount point is absolute on the platform.
pub fn is_absolute_mount_point(p: &str, platform: Platform) -> (r: bool)
    ensures
        r == absolute_path(p@, platform),
{
    let c = chars_of(p);
    match platform {
        Platform::Unix => c.len() > 0 && c[0] == '/',
        Platform::Windows => (c.len() >= 3 && (('a' <= c[0] && c[0] <= 'z') || ('A' <= c[0] && c[0]
            <= 'Z')) && c[1] == ':' && (c[2] == '\\' || c[2] == '/')) || (c.len() >= 2 && (c[0]
            == '\\' || c[0] == '/') && (c[1] == '\\' || c[1] == '/')),
    }
}

/// Index of the first partition whose normalised identifier or mount
/// point is the requested path.
pub open spec fn matching_partition(
    parts: Seq<(Seq<char>, Seq<char>)>,
    requested: Seq<char>,
    platform: Platform,
    i: int,
) -> Option<int>
    decreases parts.len() - i,
{
    if i < 0 || i >= parts.len() {
        None
    } else if path_eq(normalized_partition(parts[i].0, platform), requested) || path_eq(
        normalized_partition(parts[i].1, platform),
        requested,
    ) {
        Some(i)
    } else {
        matching_partition(parts, requested, platform, i + 1)
    }
}

fn same_path(a: &str, b: &Vec<u64>) -> (r: bool)
    ensures
        r == (path_key(a@) == b@),
{
    key_eq(&path_key_of(&chars_of(a)), b)
}

fn copy_partition(p: &MountedPartition) -> (r: MountedPartition)
    ensures
        part_view(r) == part_view(*p),
{
    MountedPartition {
        identifier: string_of(&chars_of(p.identifier.as_str())),
        mount_point: string_of(&chars_of(p.mount_point.as_str())),
    }
}

/// The mounted partition that a (normalised) requested path names: the
/// first whose identifier or mount point is that path; otherwise the path
/// itself taken as a mount point, unless it names a device.
pub fn resolve_preferred_partition(
    requested: &str,
    partitions: &Vec<MountedPartition>,
    platform: Platform,
) -> (r: Result<MountedPartition, EliError>)
    ensures
        match matching_partition(part_views(partitions@), requested@, platform, 0) {
            Some(i) => r matches Ok(p) && part_view(p) == part_view(partitions@[i]),
            None => if device_identifier(requested@, platform) {
                r matches Err(e) && e.kind == ErrorKind::NotFound && e.message@
                    == "boot disk partition is not mounted or was not found: "@ + requested@
            } else {
                r matches Ok(p) && p.identifier@ == requested@ && p.mount_point@ == requested@
            },
        },
{
    let wanted = path_key_of(&chars_of(requested));
    let mut i: usize = 0;
    while i < partitions.len()
        invariant
            i <= partitions.len(),
            wanted@ == path_key(requested@),
            matching_partition(part_views(partitions@), requested@, platform, 0)
                == matching_partition(part_views(partitions@), requested@, platform, i as int),
        decreases partitions.len() - i,
    {
        let p = &partitions[i];
        let a = normalize_partition_identifier(p.identifier.as_str(), platform);
        let b = normalize_partition_identifier(p.mount_point.as_str(), platform);
        assert(part_views(partitions@)[i as int] == part_view(partitions@[i as int]));
        if same_path(a.as_str(), &wanted) || same_path(b.as_str(), &wanted) {
            return Ok(copy_partition(p));
        }
        i = i + 1;
    }
    if is_device_identifier(requested, platform) {
        let message = concat(
            &chars_of("boot disk partition is not mounted or was not found: "),
            &chars_of(requested),
        );
        return Err(EliError::new(ErrorKind::NotFound, string_of(&message)));
    }
    Ok(
        MountedPartition {
            identifier: string_of(&chars_of(requested)),
            mount_point: string_of(&chars_of(requested)),
        },
    )
}

/// Chooses the boot disk with the greatest mount point; all candidates are
/// kept, ordered from the greatest mount point down.
pub fn select_boot_disk(candidates: Vec<BootDisk>) -> (r: Result<BootDiskSelection, EliError>)
    ensures
        match r {
            Ok(sel) => {
                &&& candidates@.len() > 0
                &&& sel.source == BootDiskSelectionSource::Automatic
                &&& disk_views(sel.candidates@).to_multiset() == disk_views(
                    candidates@,
                ).to_multiset()
                &&& forall|a: int, b: int|
                    0 <= a < b < sel.candidates@.len() ==> !path_less(
                        sel.candidates@[a].mount_point@,
                        sel.candidates@[b].mount_point@,
                    )
                &&& sel.candidates@.len() > 0
                &&& disk_view(sel.selected) == disk_view(sel.candidates@[0])
                &&& forall|k: int|
                    0 <= k < candidates@.len() ==> !path_less(
                        sel.selected.mount_point@,
                        #[trigger] candidates@[k].mount_point@,
                    )
            },
            Err(e) => candidates@.len() == 0 && e.kind == ErrorKind::NotFound && e.message@
                == "no Edgeless boot disk found"@,
        },
{
    let ghost input = disk_views(candidates@);
    let n_items: usize = candidates.len();
    let ghost n = n_items as nat;
    let mut out: Vec<BootDisk> = Vec::new();
    let mut keys: Vec<Vec<u64>> = Vec::new();
    let mut rest = candidates;
    let mut taken: usize = 0;
    assert(disk_views(rest@) =~= input.skip(0));
    assert(input.take(0) =~= Seq::<(Seq<char>, Seq<char>, Seq<char>)>::empty());
    while rest.len() > 0
        invariant
            taken + rest@.len() == n,
            n <= usize::MAX,
            input.len() == n,
            disk_views(rest@) == input.skip(taken as int),
            out@.len() == keys@.len(),
            forall|a: int| 0 <= a < keys@.len() ==> (#[trigger] keys@[a])@ == path_key(out@[a].mount_point@),
            forall|a: int, b: int| 0 <= a < b < out@.len() ==> !lex_less(keys@[a]@, keys@[b]@),
            disk_views(out@).to_multiset() == input.take(taken as int).to_multiset(),
        decreases rest.len(),
    {
        let ghost rest_before = disk_views(rest@);
        let ghost rest_vec = rest@;
        let x = rest.remove(0);
        assert(disk_view(x) == input[taken as int]) by {
            assert(rest_before[0] == input.skip(taken as int)[0]);
        }
        assert(rest@ == rest_vec.remove(0));
        assert(disk_views(rest@) =~= rest_before.drop_first());
        assert(rest_before.drop_first() =~= input.skip(taken + 1));
        let kx = path_key_of(&chars_of(x.mount_point.as_str()));
        let mut j: usize = 0;
        while j < keys.len() && !key_less(&keys[j], &kx)
            invariant
                j <= keys@.len(),
                forall|a: int| 0 <= a < j ==> !lex_less(keys@[a]@, kx@),
            decreases keys.len() - j,
        {
            j = j + 1;
        }
        let ghost old_keys = keys@;
        let ghost old_out = out@;
        let ghost old_views = disk_views(out@);
        keys.insert(j, kx);
        out.insert(j, x);
        proof {
            assert(disk_views(out@) =~= old_views.insert(j as int, disk_view(x)));
            assert(input.take(taken + 1) =~= input.take(taken as int).push(input[taken as int]));
            assert(input.take(taken + 1).to_multiset() == input.take(taken as int).to_multiset().insert(input[taken as int])) by {
                vstd::seq_lib::to_multiset_build(input.take(taken as int), input[taken as int]);
            }
            assert forall|a: int, b: int| 0 <= a < b < out@.len() implies !lex_less(
                keys@[a]@,
                keys@[b]@,
            ) by {
                if a < j && b == j {
                } else if a == j && b > j {
                    let kb = old_keys[b - 1]@;
                    // the element formerly at j is below kx and not below kb
                    lemma_lex_total(old_keys[j as int]@, kx@);
                    lemma_lex_total(kb, old_keys[j as int]@);
                    if lex_less(kx@, kb) {
                        if b - 1 > j {
                            if lex_less(kb, old_keys[j as int]@) {
                                lemma_lex_transitive(kx@, kb, old_keys[j as int]@);
                                lemma_lex_total(kx@, old_keys[j as int]@);
                            } else {
                                assert(kb == old_keys[j as int]@) by {
                                    lemma_lex_total(old_keys[j as int]@, kb);
                                }
                                lemma_lex_total(kx@, kb);
                            }
                        } else {
                            lemma_lex_total(kx@, kb);
                        }
                    }
                } else if a < j && b > j {
                    let ka = old_keys[a]@;
                    let kb = old_keys[b - 1]@;
                    if lex_less(ka, kb) {
                        // ka >= kx > old[j] >= kb
                        lemma_lex_total(ka, kx@);
                        lemma_lex_total(old_keys[j as int]@, kx@);
                        if b - 1 > j {
                            lemma_lex_total(old_keys[j as int]@, kb);
                            if lex_less(old_keys[j as int]@, kb) {
                                assert(false);
                            }
                            if kx@ == ka {
                                lemma_lex_transitive(kb, old_keys[j as int]@, kx@);
                                lemma_lex_total(ka, kb);
                            } else {
                                lemma_lex_transitive(old_keys[j as int]@, kx@, ka);
                                if kb == old_keys[j as int]@ {
                                    lemma_lex_total(ka, kb);
                                } else {
                                    lemma_lex_transitive(kb, old_keys[j as int]@, ka);
                                    lemma_lex_total(ka, kb);
                                }
                            }
                        } else {
                            if kx@ == ka {
                                lemma_lex_total(ka, kb);
                            } else {
                                lemma_lex_transitive(kb, kx@, ka);
                                lemma_lex_total(ka, kb);
                            }
                        }
                    }
                } else if a < j && b < j {
                    assert(keys@[a] == old_keys[a] && keys@[b] == old_keys[b]);
                } else {
                    assert(keys@[a] == old_keys[a - 1] && keys@[b] == old_keys[b - 1]);
                }
            }
            assert forall|a: int| 0 <= a < keys@.len() implies (#[trigger] keys@[a])@ == path_key(
                out@[a].mount_point@,
            ) by {
                if a < j {
                    assert(keys@[a] == old_keys[a]);
                } else if a > j {
                    assert(keys@[a] == old_keys[a - 1]);
                }
            }
        }
        taken = taken + 1;
    }
    assert(input.take(n as int) =~= input);
    if out.len() == 0 {
        assert(input.len() == 0) by {
            assert(disk_views(out@) =~= Seq::<(Seq<char>, Seq<char>, Seq<char>)>::empty());
            if input.len() > 0 {
                assert(input.to_multiset().count(input[0]) > 0);
            }
        }
        return Err(EliError::new(ErrorKind::NotFound, "no Edgeless boot disk found".to_owned()));
    }
    assert(input.len() > 0) by {
        assert(disk_views(out@).len() == out@.len());
        assert(disk_views(out@).to_multiset() == input.to_multiset());
        assert(disk_views(out@).to_multiset().len() == disk_views(out@).len());
        assert(input.to_multiset().len() == input.len());
    }
    let first = &out[0];
    let selected = BootDisk {
        partition: string_of(&chars_of(first.partition.as_str())),
        mount_point: string_of(&chars_of(first.mount_point.as_str())),
        version: string_of(&chars_of(first.version.as_str())),
    };
    proof {
        assert forall|k: int| 0 <= k < input.len() implies !path_less(
            selected.mount_point@,
            #[trigger] input[k].1,
        ) by {
            assert(input.to_multiset().count(input[k]) > 0);
            assert(disk_views(out@).contains(input[k]));
            let a = choose|a: int| 0 <= a < disk_views(out@).len() && disk_views(out@)[a] == input[k];
            assert(disk_views(out@)[a] == disk_view(out@[a]));
            if a > 0 {
                assert(!lex_less(keys@[0]@, keys@[a]@));
            } else {
                lemma_lex_irreflexive(keys@[0]@);
            }
        }
        assert forall|k: int| 0 <= k < candidates@.len() implies !path_less(
            selected.mount_point@,
            #[trigger] candidates@[k].mount_point@,
        ) by {
            assert(input[k].1 == candidates@[k].mount_point@);
        }
        assert forall|a: int, b: int| 0 <= a < b < out@.len() implies !path_less(
            out@[a].mount_point@,
            out@[b].mount_point@,
        ) by {
            assert(keys@[a]@ == path_key(out@[a].mount_point@));
            assert(keys@[b]@ == path_key(out@[b].mount_point@));
        }
    }
    Ok(BootDiskSelection { selected, candidates: out, source: BootDiskSelectionSource::Automatic })
}

/// The selection of a boot disk the user named.
pub fn explicit_selection(disk: BootDisk) -> (r: BootDiskSelection)
    ensures
        r.source == BootDiskSelectionSource::Explicit,
        disk_view(r.selected) == disk_view(disk),
        r.candidates@.len() == 1,
        disk_view(r.candidates@[0]) == disk_view(disk),
{
    let copy = BootDisk {
        partition: string_of(&chars_of(disk.partition.as_str())),
        mount_point: string_of(&chars_of(disk.mount_point.as_str())),
        version: string_of(&chars_of(disk.version.as_str())),
    };
    let mut candidates: Vec<BootDisk> = Vec::new();
    candidates.push(copy);
    BootDiskSelection { selected: disk, candidates, source: BootDiskSelectionSource::Explicit }
}

/// What selecting a boot disk takes next.
#[derive(Debug)]
pub enum GetStep {
    /// Read `Edgeless/version.txt` under this partition's mount point and
    /// pass the disk to `explicit_selection`.
    ReadExplicit(MountedPartition),
    /// The automatic choice among the boot disks found.
    Selected(BootDiskSelection),
}

/// Selects a boot disk: a partition the user named wins and must resolve
/// to an absolute mount point; otherwise the boot disk with the greatest
/// mount point among `found` is chosen.
pub fn get(
    preferred_partition: Option<&str>,
    platform: Platform,
    mounted: &Vec<MountedPartition>,
    found: Vec<BootDisk>,
) -> (r: Result<GetStep, EliError>)
    ensures
        match preferred_partition {
            Some(p) => {
                let requested = normalized_partition(p@, platform);
                match matching_partition(part_views(mounted@), requested, platform, 0) {
                    Some(i) => if absolute_path(mounted@[i].mount_point@, platform) {
                        r matches Ok(GetStep::ReadExplicit(q)) && part_view(q) == part_view(
                            mounted@[i],
                        )
                    } else {
                        r matches Err(e) && e.kind == ErrorKind::InvalidInput && e.message@
                            == "boot disk path must be an absolute mount point: "@
                            + mounted@[i].mount_point@
                    },
                    None => if device_identifier(requested, platform) {
                        r matches Err(e) && e.kind == ErrorKind::NotFound && e.message@
                            == "boot disk partition is not mounted or was not found: "@ + requested
                    } else if absolute_path(requested, platform) {
                        r matches Ok(GetStep::ReadExplicit(q)) && q.identifier@ == requested
                            && q.mount_point@ == requested
                    } else {
                        r matches Err(e) && e.kind == ErrorKind::InvalidInput && e.message@
                            == "boot disk path must be an absolute mount point: "@ + requested
                    },
                }
            },
            None => match r {
                Ok(GetStep::Selected(sel)) => found@.len() > 0 && sel.source
                    == BootDiskSelectionSource::Automatic && disk_views(sel.candidates@).to_multiset()
                    == disk_views(found@).to_multiset() && (forall|a: int, b: int|
                    0 <= a < b < sel.candidates@.len() ==> !path_less(
                        sel.candidates@[a].mount_point@,
                        sel.candidates@[b].mount_point@,
                    )) && disk_view(sel.selected) == disk_view(
                    sel.candidates@[0],
                ) && forall|k: int|
                    0 <= k < found@.len() ==> !path_less(
                        sel.selected.mount_point@,
                        #[trigger] found@[k].mount_point@,
                    ),
                Ok(GetStep::ReadExplicit(_)) => false,
                Err(e) => found@.len() == 0 && e.kind == ErrorKind::NotFound && e.message@
                    == "no Edgeless boot disk found"@,
            },
        },
{
    match preferred_partition {
        Some(p) => {
            let requested = normalize_partition_identifier(p, platform);
            match resolve_preferred_partition(requested.as_str(), mounted, platform) {
                Ok(partition) => {
                    if !is_absolute_mount_point(partition.mount_point.as_str(), platform) {
                        let message = concat(
                            &chars_of("boot disk path must be an absolute mount point: "),
                            &chars_of(partition.mount_point.as_str()),
                        );
                        return Err(EliError::new(ErrorKind::InvalidInput, string_of(&message)));
                    }
                    Ok(GetStep::ReadExplicit(partition))
                },
                Err(e) => Err(e),
            }
        },
        None => match select_boot_disk(found) {
            Ok(sel) => Ok(GetStep::Selected(sel)),
            Err(e) => Err(e),
        },
    }
}

/// The FNV-1a offset basis and prime of 64-bit hashes.
pub const FNV_OFFSET: u64 = 0xcbf29ce484222325;

pub const FNV_PRIME: u64 = 0x100000001b3;

/// The 64-bit FNV-1a hash of some bytes.
pub open spec fn fnv_hash(bytes: Seq<u8>) -> u64
    decreases bytes.len(),
{
    if bytes.len() == 0 {
        FNV_OFFSET
    } else {
        (fnv_hash(bytes.drop_last()) ^ (bytes.last() as u64)).wrapping_mul(FNV_PRIME)
    }
}

/// A hash of a boot disk's identity that stays the same from run to run:
/// FNV-1a over its UTF-8 bytes.
pub fn stable_hash(value: &str) -> (r: u64)
    ensures
        r == fnv_hash(value.spec_bytes()),
{
    let bytes = value.as_bytes();
    let mut hash: u64 = FNV_OFFSET;
    let mut i: usize = 0;
    while i < bytes.len()
        invariant
            i <= bytes@.len(),
            bytes@ == value.spec_bytes(),
            hash == fnv_hash(bytes@.take(i as int)),
        decreases bytes.len() - i,
    {
        assert(bytes@.take(i + 1).drop_last() =~= bytes@.take(i as int));
        hash = (hash ^ (bytes[i] as u64)).wrapping_mul(FNV_PRIME);
        i = i + 1;
    }
    assert(bytes@.take(bytes@.len() as int) =~= bytes@);
    hash
}

pub open spec fn hex_char(d: nat) -> char {
    if d < 10 {
        ((d + 48) as u32) as char
    } else {
        ((d + 87) as u32) as char
    }
}

/// `n` in `width` lower-case hexadecimal digits, the last `width` of them.
pub open spec fn hex_fixed(n: nat, width: nat) -> Seq<char>
    decreases width,
{
    if width == 0 {
        Seq::empty()
    } else {
        hex_fixed(n / 16, (width - 1) as nat).push(hex_char(n % 16))
    }
}

fn hex_fixed_of(n: u64, width: u32) -> (r: Vec<char>)
    ensures
        r@ == hex_fixed(n as nat, width as nat),
    decreases width,
{
    if width == 0 {
        return Vec::new();
    }
    let mut v = hex_fixed_of(n / 16, width - 1);
    let d = (n % 16) as u8;
    let c = if d < 10 {
        (d + 48) as char
    } else {
        (d + 87) as char
    };
    assert(c == hex_char((n % 16) as nat));
    v.push(c);
    v
}

/// The lock file that serialises writes to one boot disk:
/// `bootdisk-<16 hexadecimal digits of the hash>.lock`.
pub fn bootdisk_lock_name(identity: &str) -> (r: String)
    ensures
        r@ == "bootdisk-"@ + hex_fixed(fnv_hash(identity.spec_bytes()) as nat, 16) + ".lock"@,
{
    let h = stable_hash(identity);
    let mut out = crate::text::concat(&chars_of("bootdisk-"), &hex_fixed_of(h, 16));
    out = crate::text::concat(&out, &chars_of(".lock"));
    string_of(&out)
}

} // verus!

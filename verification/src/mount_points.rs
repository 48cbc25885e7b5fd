//! Mount points alone, for scans that only need where partitions are
//! mounted: the same tables as in `bootdisk`, without device names.
use crate::bootdisk::{
    decode, has_mount_point, macos_entry, part_view, part_views, unique_by_mount_point,
    unique_partitions, MountedPartition,
};
use crate::path::{path_eq, path_less};
use crate::text::{
    chars_of, lines, lines_of, string_of, views, words, words_of,
};
use vstd::prelude::*;

pub use crate::bootdisk::decode_mount_path;

verus! {

/// The mount point of a line of `/proc/self/mountinfo`: its fifth field.
pub open spec fn linux_mount_point(line: Seq<char>) -> Option<Seq<char>> {
    if words(line).len() > 4 {
        Some(decode(words(line)[4]))
    } else {
        None
    }
}

pub open spec fn macos_mount_point(line: Seq<char>) -> Option<Seq<char>> {
    match macos_entry(line) {
        Some(e) => Some(e.1),
        None => None,
    }
}

pub open spec fn mount_points(ls: Seq<Seq<char>>, linux: bool) -> Seq<Seq<char>>
    decreases ls.len(),
{
    if ls.len() == 0 {
        Seq::empty()
    } else {
        let m = if linux {
            linux_mount_point(ls[0])
        } else {
            macos_mount_point(ls[0])
        };
        match m {
            Some(p) => seq![p] + mount_points(ls.drop_first(), linux),
            None => mount_points(ls.drop_first(), linux),
        }
    }
}

/// Ordered, one per path, each taken from `input`, none of `input` lost.
pub open spec fn sorted_unique_paths(out: Seq<Seq<char>>, input: Seq<Seq<char>>) -> bool {
    &&& forall|a: int, b: int| 0 <= a < b < out.len() ==> path_less(out[a], out[b])
    &&& forall|a: int| 0 <= a < out.len() ==> input.contains(#[trigger] out[a])
    &&& forall|k: int| 0 <= k < input.len() ==> has_path(out, #[trigger] input[k])
}

pub open spec fn has_path(out: Seq<Seq<char>>, m: Seq<char>) -> bool {
    exists|a: int| 0 <= a < out.len() && path_eq(#[trigger] out[a], m)
}

/// Sorts mount points and keeps one of each path.
pub fn unique_mount_points(mount_points: Vec<String>) -> (r: Vec<String>)
    ensures
        sorted_unique_paths(r@.map_values(|s: String| s@), mount_points@.map_values(|s: String| s@)),
{
    let ghost input = mount_points@.map_values(|s: String| s@);
    let mut wrapped: Vec<MountedPartition> = Vec::new();
    let mut i: usize = 0;
    while i < mount_points.len()
        invariant
            i <= mount_points.len(),
            input == mount_points@.map_values(|s: String| s@),
            wrapped@.len() == i,
            forall|k: int| 0 <= k < i ==> (#[trigger] wrapped@[k]).identifier@ == Seq::<char>::empty()
                && wrapped@[k].mount_point@ == input[k],
        decreases mount_points.len() - i,
    {
        wrapped.push(
            MountedPartition {
                identifier: String::new(),
                mount_point: string_of(&chars_of(mount_points[i].as_str())),
            },
        );
        i = i + 1;
    }
    let ghost winput = part_views(wrapped@);
    let unique = unique_partitions(wrapped);
    let mut out: Vec<String> = Vec::new();
    let mut j: usize = 0;
    while j < unique.len()
        invariant
            j <= unique.len(),
            out@.len() == j,
            forall|k: int| 0 <= k < j ==> (#[trigger] out@[k])@ == unique@[k].mount_point@,
        decreases unique.len() - j,
    {
        out.push(string_of(&chars_of(unique[j].mount_point.as_str())));
        j = j + 1;
    }
    proof {
        let ov = out@.map_values(|s: String| s@);
        let uv = part_views(unique@);
        assert(unique_by_mount_point(uv, winput));
        assert forall|a: int, b: int| 0 <= a < b < ov.len() implies path_less(ov[a], ov[b]) by {
            assert(uv[a].1 == ov[a] && uv[b].1 == ov[b]);
        }
        assert forall|a: int| 0 <= a < ov.len() implies input.contains(#[trigger] ov[a]) by {
            assert(winput.contains(uv[a]));
            let w = choose|w: int| 0 <= w < winput.len() && winput[w] == uv[a];
            assert(input[w] == ov[a]);
        }
        assert forall|k: int| 0 <= k < input.len() implies has_path(ov, #[trigger] input[k]) by {
            assert(winput[k].1 == input[k]);
            assert(has_mount_point(uv, winput[k].1));
            let a = choose|a: int| 0 <= a < uv.len() && path_eq(#[trigger] uv[a].1, winput[k].1);
            assert(ov[a] == uv[a].1);
        }
    }
    out
}

fn collect(ls: &Vec<Vec<char>>, linux: bool) -> (r: Vec<String>)
    ensures
        r@.map_values(|s: String| s@) == mount_points(views(ls@), linux),
{
    let ghost all = views(ls@);
    let mut out: Vec<String> = Vec::new();
    let mut i: usize = 0;
    assert(all.skip(0) =~= all);
    while i < ls.len()
        invariant
            i <= ls.len(),
            all == views(ls@),
            out@.map_values(|s: String| s@) + mount_points(all.skip(i as int), linux)
                == mount_points(all, linux),
        decreases ls.len() - i,
    {
        let ghost before = out@.map_values(|s: String| s@);
        assert(all.skip(i as int).drop_first() =~= all.skip(i + 1));
        assert(all.skip(i as int)[0] == ls@[i as int]@);
        if linux {
            let fields = words_of(&ls[i]);
            if fields.len() > 4 {
                let m = crate::bootdisk::decode_mount_path(string_of(&fields[4]).as_str());
                out.push(m);
                assert(out@.map_values(|s: String| s@) =~= before + seq![
                    linux_mount_point(ls@[i as int]@)->0
                ]);
            }
        } else {
            let line = string_of(&ls[i]);
            let parsed = crate::bootdisk::parse_macos_line(line.as_str());
            match parsed {
                Some(p) => {
                    out.push(p.mount_point);
                    assert(out@.map_values(|s: String| s@) =~= before + seq![
                        macos_mount_point(ls@[i as int]@)->0
                    ]);
                },
                None => {},
            }
        }
        i = i + 1;
    }
    assert(all.skip(ls.len() as int) =~= Seq::<Seq<char>>::empty());
    assert(out@.map_values(|s: String| s@) + Seq::empty() =~= out@.map_values(|s: String| s@));
    out
}

/// The mount points in the text of `/proc/self/mountinfo`, sorted, one
/// per path.
pub fn parse_linux_mount_info(mount_info: &str) -> (r: Vec<String>)
    ensures
        sorted_unique_paths(
            r@.map_values(|s: String| s@),
            mount_points(lines(mount_info@), true),
        ),
{
    let ls = lines_of(&chars_of(mount_info));
    unique_mount_points(collect(&ls, true))
}

/// The mount points in the output of macOS `mount`, sorted, one per path.
pub fn parse_macos_mount_table(mount_table: &str) -> (r: Vec<String>)
    ensures
        sorted_unique_paths(
            r@.map_values(|s: String| s@),
            mount_points(lines(mount_table@), false),
        ),
{
    let ls = lines_of(&chars_of(mount_table));
    unique_mount_points(collect(&ls, false))
}

} // verus!

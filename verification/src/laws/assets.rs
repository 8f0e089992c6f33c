//! Which replaced assets are looked for and found.
use crate::legacy::{
    asset_views, guid_of, hex_digit, hex_number, info_of, is_hex, is_middle, is_trimmed,
    is_white_space, law_trimming_has_one_result, line_guid, listed_assets, may_be_rooted,
    path_added, replaced_files, replaced_folders, with_slashes, Guid, LegacyAsset, LegacyInfo,
    ScanView,
};
use crate::package_info::PackageInfo;
use crate::paths::paths_equal;
use std::path::PathBuf;
use vstd::prelude::*;

verus! {

/// The value of a hexadecimal digit, of either case; no other character has one.
pub proof fn law_hexadecimal_digits(c: char)
    ensures
        0x30 <= c as int <= 0x39 ==> hex_digit(c) == Some((c as int - 0x30) as nat),
        0x61 <= c as int <= 0x66 ==> hex_digit(c) == Some((c as int - 0x57) as nat),
        0x41 <= c as int <= 0x46 ==> hex_digit(c) == Some((c as int - 0x37) as nat),
        !(0x30 <= c as int <= 0x39 || 0x61 <= c as int <= 0x66 || 0x41 <= c as int <= 0x46)
            ==> hex_digit(c) is None,
{
}

/// A text is a GUID exactly if it has 32 characters and all are hexadecimal digits; each digit
/// counts sixteen times the next.
pub proof fn law_guid_is_32_digits(text: Seq<char>, digits: Seq<char>, c: char)
    ensures
        guid_of(text) is Some <==> (text.len() == 32 && forall|i: int|
            0 <= i < text.len() ==> hex_digit(#[trigger] text[i]) is Some),
        guid_of(text) is Some ==> guid_of(text) == Some(hex_number(text)),
        is_hex(text) <==> forall|i: int|
            0 <= i < text.len() ==> hex_digit(#[trigger] text[i]) is Some,
        hex_number(seq![]) == 0,
        hex_number(digits.push(c)) == hex_number(digits) * 16 + hex_digit(c)->0,
{
    assert(digits.push(c).drop_last() =~= digits);
}

/// The white space of Unicode.
pub proof fn law_white_space(c: char)
    ensures
        is_white_space(c) <==> ((0x9 <= c as int <= 0xd) || c as int == 0x20 || c as int == 0x85
            || c as int == 0xa0 || c as int == 0x1680 || (0x2000 <= c as int <= 0x200a) || c as int
            == 0x2028 || c as int == 0x2029 || c as int == 0x202f || c as int == 0x205f || c as int
            == 0x3000),
{
}

/// A line gives a GUID exactly if it begins with the prefix and what follows, without the white
/// space around it, is one.
pub proof fn law_guid_of_a_line(
    line: Seq<char>,
    guid: Option<nat>,
    lead: Seq<char>,
    middle: Seq<char>,
    tail: Seq<char>,
)
    requires
        line_guid(line, guid),
        forall|i: int| 0 <= i < lead.len() ==> is_white_space(#[trigger] lead[i]),
        forall|i: int| 0 <= i < tail.len() ==> is_white_space(#[trigger] tail[i]),
        middle.len() > 0 ==> !is_white_space(middle[0]) && !is_white_space(middle.last()),
    ensures
        line == "guid: "@ + (lead + middle + tail) ==> guid == guid_of(middle),
        !("guid: "@.is_prefix_of(line)) ==> guid is None,
{
    let rest = lead + middle + tail;
    if line == "guid: "@ + rest {
        let start = lead.len() as int;
        let end = start + middle.len();
        assert("guid: "@.is_prefix_of(line));
        assert(line.skip("guid: "@.len() as int) =~= rest);
        assert forall|i: int| 0 <= i < start implies is_white_space(#[trigger] rest[i]) by {
            assert(rest[i] == lead[i]);
        }
        assert forall|i: int| end <= i < rest.len() implies is_white_space(
            #[trigger] rest[i],
        ) by {
            assert(rest[i] == tail[i - end]);
        }
        if start < end {
            assert(rest[start] == middle[0]);
            assert(rest[end - 1] == middle.last());
        }
        assert(is_middle(rest, start, end));
        assert(rest.subrange(start, end) =~= middle);
        assert(is_trimmed(rest, middle));
        let found = choose|found: Seq<char>| #[trigger]
            is_trimmed(rest, found) && guid == guid_of(found);
        law_trimming_has_one_result(rest, middle, found);
    }
}

/// The assets that are looked for: the folders and the files that each package lists, each as
/// what it is listed as.
pub proof fn law_one_more_package_with_assets(
    packages: Seq<PackageInfo>,
    info: PackageInfo,
    index: int,
)
    ensures
        replaced_folders(seq![]).len() == 0,
        replaced_files(seq![]).len() == 0,
        replaced_folders(packages.push(info)) == replaced_folders(packages) + listed_assets(
            info.package().legacy_folders@,
            false,
        ),
        replaced_files(packages.push(info)) == replaced_files(packages) + listed_assets(
            info.package().legacy_files@,
            true,
        ),
{
    assert(packages.push(info).drop_last() =~= packages);
}

/// A listed asset has its path, its GUID and its kind.
pub proof fn law_listed_asset_is_taken_in_full(
    list: Seq<(String, Option<String>)>,
    is_file: bool,
    assets: Seq<LegacyAsset>,
    index: int,
)
    ensures
        listed_assets(list, is_file).len() == list.len(),
        0 <= index < list.len() ==> listed_assets(list, is_file)[index] == (
            list[index].0,
            list[index].1,
            is_file,
        ),
        asset_views(assets).len() == assets.len(),
        0 <= index < assets.len() ==> asset_views(assets)[index] == (
            *assets[index].path,
            *assets[index].guid,
            assets[index].is_file,
        ),
{
}

/// The path that is looked at has a slash for each backslash and is else as listed.
pub proof fn law_backslashes_become_slashes(path: Seq<char>, index: int)
    ensures
        with_slashes(path).len() == path.len(),
        0 <= index < path.len() && path[index] == '\\' ==> with_slashes(path)[index] == '/',
        0 <= index < path.len() && path[index] != '\\' ==> with_slashes(path)[index]
            == path[index],
{
}

/// A path that begins with a separator is refused, and one that does not and names no drive is
/// not.
pub proof fn law_rooted_paths_are_refused(path: Seq<char>, refused: bool)
    requires
        may_be_rooted(path, refused),
    ensures
        path.len() > 0 && (path[0] == '/' || path[0] == '\\') ==> refused,
        path.len() == 0 ==> !refused,
        path.len() > 0 && path[0] != '/' && path[0] != '\\' && (path.len() < 2 || path[1] != ':')
            ==> !refused,
{
}

/// What is known of an asset, case by case.
pub proof fn law_what_is_known_of_an_asset(
    asset: LegacyAsset,
    path: PathBuf,
    at_path: Option<bool>,
)
    ensures
        info_of(asset, true, path, at_path) is NotFound,
        asset.is_file && at_path == Some(true) ==> info_of(asset, false, path, at_path)
            == LegacyInfo::FoundFile(path),
        !asset.is_file && at_path == Some(false) ==> info_of(asset, false, path, at_path)
            == LegacyInfo::FoundFolder(path),
        at_path != Some(asset.is_file) && (asset.guid is None || guid_of(asset.guid->0@) is None)
            ==> info_of(asset, false, path, at_path) is NotFound,
        at_path != Some(asset.is_file) && asset.guid is Some && guid_of(asset.guid->0@) is Some
            && asset.is_file ==> info_of(asset, false, path, at_path) == LegacyInfo::GuidFile(
            Guid { number: guid_of(asset.guid->0@)->0 as u128 },
        ),
        at_path != Some(asset.is_file) && asset.guid is Some && guid_of(asset.guid->0@) is Some
            && !asset.is_file ==> info_of(asset, false, path, at_path) == LegacyInfo::GuidFolder(
            Guid { number: guid_of(asset.guid->0@)->0 as u128 },
        ),
{
}

/// A path that is found is added last, unless one that equals it was found before.
pub proof fn law_path_is_added_once(list: Seq<PathBuf>, path: PathBuf)
    ensures
        (exists|i: int| 0 <= i < list.len() && paths_equal(#[trigger] list[i], path))
            ==> path_added(list, path) == list,
        (forall|i: int| 0 <= i < list.len() ==> !paths_equal(#[trigger] list[i], path))
            ==> path_added(list, path) == list.push(path),
{
}

/// What is learned of one asset: a path found, a GUID to look for, or nothing.
pub proof fn law_what_is_learned_of_an_asset(scan: ScanView, path: PathBuf, guid: Guid)
    ensures
        scan.recorded(LegacyInfo::NotFound) == scan,
        scan.recorded(LegacyInfo::FoundFile(path)) == (ScanView {
            files: path_added(scan.files, path),
            folders: scan.folders,
            wanted: scan.wanted,
        }),
        scan.recorded(LegacyInfo::FoundFolder(path)) == (ScanView {
            files: scan.files,
            folders: path_added(scan.folders, path),
            wanted: scan.wanted,
        }),
        scan.recorded(LegacyInfo::GuidFile(guid)) == (ScanView {
            files: scan.files,
            folders: scan.folders,
            wanted: scan.wanted.insert(guid.number, true),
        }),
        scan.recorded(LegacyInfo::GuidFolder(guid)) == (ScanView {
            files: scan.files,
            folders: scan.folders,
            wanted: scan.wanted.insert(guid.number, false),
        }),
{
}

/// An asset of the project whose GUID is looked for as what it is is found, and not looked for
/// again; any other changes nothing.
pub proof fn law_wanted_asset_is_found(scan: ScanView, guid: u128, is_file: bool, path: PathBuf)
    ensures
        scan.wanted.contains_key(guid) && scan.wanted[guid] == is_file && is_file
            ==> scan.searched(guid, is_file, path) == (ScanView {
            files: path_added(scan.files, path),
            folders: scan.folders,
            wanted: scan.wanted.remove(guid),
        }),
        scan.wanted.contains_key(guid) && scan.wanted[guid] == is_file && !is_file
            ==> scan.searched(guid, is_file, path) == (ScanView {
            files: scan.files,
            folders: path_added(scan.folders, path),
            wanted: scan.wanted.remove(guid),
        }),
        !(scan.wanted.contains_key(guid) && scan.wanted[guid] == is_file) ==> scan.searched(
            guid,
            is_file,
            path,
        ) == scan,
{
}

/// A scan is well formed exactly if no path equals an earlier one of the same kind.
pub proof fn law_no_path_is_found_twice(scan: ScanView)
    ensures
        scan.well_formed() <==> {
            &&& forall|i: int, j: int|
                0 <= i < j < scan.files.len() ==> !paths_equal(
                    #[trigger] scan.files[i],
                    #[trigger] scan.files[j],
                )
            &&& forall|i: int, j: int|
                0 <= i < j < scan.folders.len() ==> !paths_equal(
                    #[trigger] scan.folders[i],
                    #[trigger] scan.folders[j],
                )
        },
{
}

} // verus!

//! Assets that installed packages replace: where they are looked for, and what was found.
use crate::package_info::PackageInfo;
use crate::paths::{paths_equal, same_path};
use crate::text::chars_of;
use std::collections::HashMap;
use std::path::PathBuf;
use vstd::prelude::*;

verus! {

/// The GUID of an asset, as a number.
#[derive(Clone, Copy, Debug)]
pub struct Guid {
    pub number: u128,
}

/// The value of a hexadecimal digit, of either case.
pub open spec fn hex_digit(c: char) -> Option<nat> {
    if '0' <= c && c <= '9' {
        Some((c as nat - '0' as nat) as nat)
    } else if 'a' <= c && c <= 'f' {
        Some((c as nat - 'a' as nat + 10) as nat)
    } else if 'A' <= c && c <= 'F' {
        Some((c as nat - 'A' as nat + 10) as nat)
    } else {
        None
    }
}

/// All characters are hexadecimal digits.
pub open spec fn is_hex(text: Seq<char>) -> bool {
    forall|i: int| 0 <= i < text.len() ==> hex_digit(#[trigger] text[i]) is Some
}

/// The number that hexadecimal digits stand for, the most significant digit first.
pub open spec fn hex_number(text: Seq<char>) -> nat
    decreases text.len(),
{
    if text.len() == 0 {
        0
    } else {
        hex_number(text.drop_last()) * 16 + hex_digit(text.last())->0
    }
}

/// How many numbers can be written with `digits` hexadecimal digits.
spec fn hex_limit(digits: nat) -> nat
    decreases digits,
{
    if digits == 0 {
        1
    } else {
        hex_limit((digits - 1) as nat) * 16
    }
}

proof fn lemma_hex_limit_grows(fewer: nat, more: nat)
    requires
        fewer <= more,
    ensures
        hex_limit(fewer) <= hex_limit(more),
    decreases more,
{
    if fewer < more {
        lemma_hex_limit_grows(fewer, (more - 1) as nat);
    }
}

proof fn lemma_hex_number_is_limited(text: Seq<char>)
    requires
        is_hex(text),
    ensures
        hex_number(text) < hex_limit(text.len()),
    decreases text.len(),
{
    if text.len() > 0 {
        assert(hex_digit(text[text.len() - 1]) is Some);
        lemma_hex_number_is_limited(text.drop_last());
    }
}

/// The GUID that `text` is, in its 32 digits; `None` where it is something else.
pub open spec fn guid_of(text: Seq<char>) -> Option<nat> {
    if text.len() == 32 && is_hex(text) {
        Some(hex_number(text))
    } else {
        None
    }
}

/// The two texts are the same but for the case of hexadecimal digits.
pub open spec fn same_hex_digits(a: Seq<char>, b: Seq<char>) -> bool {
    &&& a.len() == b.len()
    &&& forall|i: int| 0 <= i < a.len() ==> hex_digit(#[trigger] a[i]) == hex_digit(b[i])
}

/// Two texts are read as one GUID only if they have the same digits, and always if they do.
pub proof fn law_guids_are_told_apart(a: Seq<char>, b: Seq<char>)
    requires
        guid_of(a) is Some,
        guid_of(b) is Some,
    ensures
        guid_of(a) == guid_of(b) <==> same_hex_digits(a, b),
{
    lemma_hex_numbers_are_told_apart(a, b);
}

proof fn lemma_hex_numbers_are_told_apart(a: Seq<char>, b: Seq<char>)
    requires
        is_hex(a),
        is_hex(b),
        a.len() == b.len(),
    ensures
        hex_number(a) == hex_number(b) <==> same_hex_digits(a, b),
    decreases a.len(),
{
    if a.len() > 0 {
        let last = a.len() - 1;
        assert(hex_digit(a[last]) is Some && hex_digit(b[last]) is Some);
        let shorter_a = a.drop_last();
        let shorter_b = b.drop_last();
        lemma_hex_numbers_are_told_apart(shorter_a, shorter_b);
        if same_hex_digits(a, b) {
            assert forall|i: int| 0 <= i < shorter_a.len() implies hex_digit(
                #[trigger] shorter_a[i],
            ) == hex_digit(shorter_b[i]) by {
                assert(hex_digit(a[i]) == hex_digit(b[i]));
            }
        }
        if hex_number(a) == hex_number(b) {
            assert forall|i: int| 0 <= i < a.len() implies hex_digit(#[trigger] a[i]) == hex_digit(
                b[i],
            ) by {
                if i < last {
                    assert(hex_digit(shorter_a[i]) == hex_digit(shorter_b[i]));
                }
            }
        }
    }
}

/// The value of a hexadecimal digit, of either case.
fn parse_hex_digit(c: char) -> (digit: Option<u8>)
    ensures
        (match digit {
            Some(value) => hex_digit(c) == Some(value as nat) && value < 16,
            None => hex_digit(c) is None,
        }),
{
    if '0' <= c && c <= '9' {
        Some((c as u32 - '0' as u32) as u8)
    } else if 'a' <= c && c <= 'f' {
        Some((c as u32 - 'a' as u32 + 10) as u8)
    } else if 'A' <= c && c <= 'F' {
        Some((c as u32 - 'A' as u32 + 10) as u8)
    } else {
        None
    }
}

/// Reads the 32 digits of a GUID.
fn parse_guid_chars(chars: &[char]) -> (guid: Option<Guid>)
    ensures
        (match guid {
            Some(found) => guid_of(chars@) == Some(found.number as nat),
            None => guid_of(chars@) is None,
        }),
{
    if chars.len() != 32 {
        return None;
    }
    let mut number: u128 = 0;
    let mut i: usize = 0;
    proof {
        assert(hex_limit(32) == u128::MAX + 1) by {
            reveal_with_fuel(hex_limit, 33);
        }
    }
    while i < 32
        invariant
            i <= 32,
            chars@.len() == 32,
            is_hex(chars@.take(i as int)),
            number == hex_number(chars@.take(i as int)),
            hex_limit(32) == u128::MAX + 1,
        decreases 32 - i,
    {
        match parse_hex_digit(chars[i]) {
            Some(digit) => {
                proof {
                    let read = chars@.take(i + 1);
                    assert(read.drop_last() =~= chars@.take(i as int));
                    assert(read.last() == chars@[i as int]);
                    assert forall|j: int| 0 <= j < read.len() implies hex_digit(
                        #[trigger] read[j],
                    ) is Some by {
                        if j < i {
                            assert(chars@.take(i as int)[j] == read[j]);
                        }
                    }
                    lemma_hex_number_is_limited(read);
                    lemma_hex_limit_grows(read.len(), 32);
                }
                number = number * 16 + digit as u128;
            },
            None => {
                return None;
            },
        }
        i += 1;
    }
    proof {
        assert(chars@.take(32) =~= chars@);
    }
    Some(Guid { number })
}

/// Reads a GUID: exactly 32 hexadecimal digits.
pub fn try_parse_guid(guid: &str) -> (parsed: Option<Guid>)
    ensures
        (match parsed {
            Some(found) => guid_of(guid@) == Some(found.number as nat),
            None => guid_of(guid@) is None,
        }),
{
    let chars = chars_of(guid);
    parse_guid_chars(chars.as_slice())
}

/// The character is white space, as Unicode has it.
pub open spec fn is_white_space(c: char) -> bool {
    ||| '\u{9}' <= c && c <= '\u{d}'
    ||| c == ' '
    ||| c == '\u{85}'
    ||| c == '\u{a0}'
    ||| c == '\u{1680}'
    ||| '\u{2000}' <= c && c <= '\u{200a}'
    ||| c == '\u{2028}'
    ||| c == '\u{2029}'
    ||| c == '\u{202f}'
    ||| c == '\u{205f}'
    ||| c == '\u{3000}'
}

/// `middle` is `text` without the white space at its two ends.
pub open spec fn is_trimmed(text: Seq<char>, middle: Seq<char>) -> bool {
    exists|start: int, end: int| #[trigger]
        is_middle(text, start, end) && middle == text.subrange(start, end)
}

/// Before `start` and from `end` on there is only white space, and between the two neither the
/// first nor the last character is.
pub open spec fn is_middle(text: Seq<char>, start: int, end: int) -> bool {
    &&& 0 <= start <= end <= text.len()
    &&& forall|i: int| 0 <= i < start ==> is_white_space(#[trigger] text[i])
    &&& forall|i: int| end <= i < text.len() ==> is_white_space(#[trigger] text[i])
    &&& start < end ==> !is_white_space(text[start]) && !is_white_space(text[end - 1])
}

/// The text in front of the GUID in an asset's description.
pub open spec fn guid_prefix() -> Seq<char> {
    "guid: "@
}

/// The GUID on a line of an asset's description: what stands behind the prefix, without the
/// white space around it.
pub open spec fn line_guid(line: Seq<char>, guid: Option<nat>) -> bool {
    if guid_prefix().is_prefix_of(line) {
        exists|middle: Seq<char>| #[trigger]
            is_trimmed(line.skip(guid_prefix().len() as int), middle) && guid == guid_of(middle)
    } else {
        guid is None
    }
}

/// A text without the white space at its ends is one text.
pub proof fn law_trimming_has_one_result(text: Seq<char>, one: Seq<char>, other: Seq<char>)
    requires
        is_trimmed(text, one),
        is_trimmed(text, other),
    ensures
        one == other,
{
    let (s1, e1) = choose|start: int, end: int| #[trigger]
        is_middle(text, start, end) && one == text.subrange(start, end);
    let (s2, e2) = choose|start: int, end: int| #[trigger]
        is_middle(text, start, end) && other == text.subrange(start, end);
    if s1 < e1 {
        assert(!is_white_space(text[s1]) && !is_white_space(text[e1 - 1]));
    }
    if s2 < e2 {
        assert(!is_white_space(text[s2]) && !is_white_space(text[e2 - 1]));
    }
    if s1 < e1 && s2 < e2 {
        assert(s1 == s2 && e1 == e2);
    } else {
        assert(one =~= other);
    }
}

/// Whether the character is white space.
fn white_space(c: char) -> (white: bool)
    ensures
        white == is_white_space(c),
{
    ('\u{9}' <= c && c <= '\u{d}') || c == ' ' || c == '\u{85}' || c == '\u{a0}' || c
        == '\u{1680}' || ('\u{2000}' <= c && c <= '\u{200a}') || c == '\u{2028}' || c
        == '\u{2029}' || c == '\u{202f}' || c == '\u{205f}' || c == '\u{3000}'
}

/// Where the text begins and ends without the white space at its ends, from `from` on.
fn trimmed_bounds(chars: &Vec<char>, from: usize) -> (bounds: (usize, usize))
    requires
        from <= chars@.len(),
    ensures
        from <= bounds.0 <= bounds.1 <= chars@.len(),
        is_middle(chars@.skip(from as int), bounds.0 - from, bounds.1 - from),
{
    let ghost text = chars@.skip(from as int);
    let mut start: usize = from;
    while start < chars.len() && white_space(chars[start])
        invariant
            from <= start <= chars@.len(),
            text == chars@.skip(from as int),
            forall|i: int| 0 <= i < start - from ==> is_white_space(#[trigger] text[i]),
        decreases chars@.len() - start,
    {
        start += 1;
    }
    let mut end: usize = chars.len();
    while end > start && white_space(chars[end - 1])
        invariant
            from <= start <= end <= chars@.len(),
            text == chars@.skip(from as int),
            forall|i: int| end - from <= i < text.len() ==> is_white_space(#[trigger] text[i]),
        decreases end,
    {
        end -= 1;
    }
    (start, end)
}

/// The GUID on a line of an asset's description, if there is one.
pub fn meta_line_guid(line: &str) -> (guid: Option<Guid>)
    ensures
        line_guid(
            line@,
            (match guid {
                Some(found) => Some(found.number as nat),
                None => None,
            }),
        ),
{
    let chars = chars_of(line);
    let prefix = chars_of("guid: ");
    if chars.len() < prefix.len() {
        return None;
    }
    let mut i: usize = 0;
    while i < prefix.len()
        invariant
            i <= prefix@.len() <= chars@.len(),
            chars@ == line@,
            prefix@ == guid_prefix(),
            forall|j: int| 0 <= j < i ==> prefix@[j] == chars@[j],
        decreases prefix@.len() - i,
    {
        if prefix[i] != chars[i] {
            return None;
        }
        i += 1;
    }
    let (start, end) = trimmed_bounds(&chars, i);
    proof {
        let rest = line@.skip(i as int);
        let middle = chars@.subrange(start as int, end as int);
        assert(middle =~= rest.subrange(start - i, end - i));
        assert(is_trimmed(rest, middle));
    }
    let middle = vstd::slice::slice_subrange(chars.as_slice(), start, end);
    parse_guid_chars(middle)
}

/// An asset that a package replaces.
#[derive(Clone, Copy, Debug)]
pub struct LegacyAsset<'a> {
    /// Where the asset used to be, from the project's folder on.
    pub path: &'a String,
    /// The GUID of the asset, if known.
    pub guid: &'a Option<String>,
    pub is_file: bool,
}

/// The assets of one list of one package.
pub open spec fn listed_assets(list: Seq<(String, Option<String>)>, is_file: bool) -> Seq<
    (String, Option<String>, bool),
> {
    list.map_values(|asset: (String, Option<String>)| (asset.0, asset.1, is_file))
}

/// The folders that the packages replace, in order.
pub open spec fn replaced_folders(packages: Seq<PackageInfo>) -> Seq<
    (String, Option<String>, bool),
>
    decreases packages.len(),
{
    if packages.len() == 0 {
        seq![]
    } else {
        replaced_folders(packages.drop_last()) + listed_assets(
            packages.last().package().legacy_folders@,
            false,
        )
    }
}

/// The files that the packages replace, in order.
pub open spec fn replaced_files(packages: Seq<PackageInfo>) -> Seq<(String, Option<String>, bool)>
    decreases packages.len(),
{
    if packages.len() == 0 {
        seq![]
    } else {
        replaced_files(packages.drop_last()) + listed_assets(
            packages.last().package().legacy_files@,
            true,
        )
    }
}

/// The model of a list of assets.
pub open spec fn asset_views(assets: Seq<LegacyAsset>) -> Seq<(String, Option<String>, bool)> {
    assets.map_values(|asset: LegacyAsset| (*asset.path, *asset.guid, asset.is_file))
}

/// Adds the assets of one list of one package.
fn push_assets<'a>(
    assets: &mut Vec<LegacyAsset<'a>>,
    list: &'a Vec<(String, Option<String>)>,
    is_file: bool,
)
    ensures
        asset_views(final(assets)@) == asset_views(old(assets)@) + listed_assets(list@, is_file),
{
    let ghost before = asset_views(assets@);
    let ghost added = listed_assets(list@, is_file);
    let mut i: usize = 0;
    proof {
        assert(asset_views(assets@) =~= before + added.take(0));
    }
    while i < list.len()
        invariant
            i <= list@.len(),
            added == listed_assets(list@, is_file),
            asset_views(assets@) == before + added.take(i as int),
        decreases list@.len() - i,
    {
        let ghost earlier = assets@;
        assets.push(LegacyAsset { path: &list[i].0, guid: &list[i].1, is_file });
        proof {
            let asset = (list@[i as int].0, list@[i as int].1, is_file);
            assert(asset_views(assets@) =~= asset_views(earlier).push(asset));
            assert(added[i as int] == asset);
            assert(before + added.take(i + 1) =~= (before + added.take(i as int)).push(asset));
        }
        i += 1;
    }
    proof {
        assert(added.take(i as int) =~= added);
    }
}

/// The assets that the packages replace: the folders of all of them, then the files of all of
/// them.
pub fn legacy_assets<'a>(packages: &[PackageInfo<'a>]) -> (assets: Vec<LegacyAsset<'a>>)
    ensures
        asset_views(assets@) == replaced_folders(packages@) + replaced_files(packages@),
{
    let mut assets: Vec<LegacyAsset<'a>> = Vec::new();
    let ghost all = packages@;
    let mut i: usize = 0;
    proof {
        assert(all.take(0) =~= seq![]);
        assert(asset_views(assets@) =~= replaced_folders(all.take(0)));
    }
    while i < packages.len()
        invariant
            i <= all.len(),
            all == packages@,
            asset_views(assets@) == replaced_folders(all.take(i as int)),
        decreases all.len() - i,
    {
        proof {
            assert(all.take(i + 1).drop_last() =~= all.take(i as int));
        }
        push_assets(&mut assets, &packages[i].package_json().legacy_folders, false);
        i += 1;
    }
    let mut j: usize = 0;
    let ghost folders = replaced_folders(all);
    proof {
        assert(all.take(i as int) =~= all);
        assert(folders + replaced_files(all.take(0)) =~= folders);
    }
    while j < packages.len()
        invariant
            j <= all.len(),
            all == packages@,
            asset_views(assets@) == folders + replaced_files(all.take(j as int)),
        decreases all.len() - j,
    {
        proof {
            assert(all.take(j + 1).drop_last() =~= all.take(j as int));
        }
        push_assets(&mut assets, &packages[j].package_json().legacy_files, true);
        proof {
            let more = listed_assets(all[j as int].package().legacy_files@, true);
            assert(folders + replaced_files(all.take(j + 1)) =~= (folders + replaced_files(
                all.take(j as int),
            )) + more);
        }
        j += 1;
    }
    proof {
        assert(all.take(j as int) =~= all);
    }
    assets
}

/// The path with `/` for each `\`.
pub open spec fn with_slashes(path: Seq<char>) -> Seq<char> {
    path.map_values(
        |c: char|
            if c == '\\' {
                '/'
            } else {
                c
            },
    )
}

/// The path names no drive, as `C:` does.
pub open spec fn names_no_drive(path: Seq<char>) -> bool {
    path.len() < 2 || path[1] != ':'
}

/// `Path::has_root`: a path that begins with `/` has a root on every system. One that begins
/// with neither separator and names no drive has none on any system. Of what is left the
/// system decides.
#[verifier::external_body]
pub(crate) fn has_root(path: &str) -> (rooted: bool)
    ensures
        path@.len() > 0 && path@[0] == '/' ==> rooted,
        (path@.len() > 0 ==> path@[0] != '/' && path@[0] != '\\') && names_no_drive(path@)
            ==> !rooted,
{
    std::path::Path::new(path).has_root()
}

/// The path with `/` for each `\`.
fn slashed(path: &str) -> (text: String)
    ensures
        text@ == with_slashes(path@),
{
    let chars = chars_of(path);
    let mut text = String::new();
    let mut i: usize = 0;
    proof {
        assert(text@ =~= with_slashes(path@).take(0));
    }
    while i < chars.len()
        invariant
            i <= chars@.len(),
            chars@ == path@,
            text@ == with_slashes(path@).take(i as int),
        decreases chars@.len() - i,
    {
        let ghost before = text@;
        if chars[i] == '\\' {
            text.push('/');
        } else {
            text.push(chars[i]);
        }
        proof {
            assert(with_slashes(path@).take(i + 1) =~= before.push(with_slashes(path@)[i as int]));
        }
        i += 1;
    }
    proof {
        assert(with_slashes(path@).take(i as int) =~= with_slashes(path@));
    }
    text
}

/// Where to look for an asset, from the project's folder on, where `rooted` says whether the
/// path begins at a root. Such a path is refused.
pub fn path_to_look_at(path: &str, rooted: bool) -> (relative: Option<String>)
    ensures
        rooted ==> relative is None,
        !rooted ==> (relative matches Some(text) && text@ == with_slashes(path@)),
{
    if rooted {
        None
    } else {
        Some(slashed(path))
    }
}

/// `rooted` may be the system's answer to whether the path, written with slashes, begins at a
/// root.
pub open spec fn may_be_rooted(path: Seq<char>, rooted: bool) -> bool {
    &&& path.len() > 0 && (path[0] == '/' || path[0] == '\\') ==> rooted
    &&& rooted ==> path.len() > 0 && (path[0] == '/' || path[0] == '\\' || !names_no_drive(path))
}

/// Where to look for an asset, from the project's folder on. A path that begins at a root is
/// refused. Of a path that names a drive the system says whether it does.
pub fn asset_path(path: &str) -> (relative: Option<String>)
    ensures
        may_be_rooted(path@, relative is None),
        relative matches Some(text) ==> text@ == with_slashes(path@),
{
    let rooted = has_root(slashed(path).as_str());
    path_to_look_at(path, rooted)
}

/// What is known of an asset before the project is searched by GUID.
pub enum LegacyInfo {
    FoundFile(PathBuf),
    FoundFolder(PathBuf),
    NotFound,
    /// A file that may have moved.
    GuidFile(Guid),
    /// A folder that may have moved.
    GuidFolder(Guid),
}

/// The GUID that is given with an asset, if it is one.
pub open spec fn known_guid(guid: Option<String>) -> Option<nat> {
    match guid {
        Some(text) => guid_of(text@),
        None => None,
    }
}

/// What is known of `asset`. A refused asset counts as not found, and its GUID is not looked
/// for. Of any other `at_path` says what lies at its path: a file, something else, or nothing.
pub open spec fn info_of(
    asset: LegacyAsset,
    refused: bool,
    path: PathBuf,
    at_path: Option<bool>,
) -> LegacyInfo {
    if refused {
        LegacyInfo::NotFound
    } else if at_path == Some(asset.is_file) {
        if asset.is_file {
            LegacyInfo::FoundFile(path)
        } else {
            LegacyInfo::FoundFolder(path)
        }
    } else {
        match known_guid(*asset.guid) {
            Some(number) => if asset.is_file {
                LegacyInfo::GuidFile(Guid { number: number as u128 })
            } else {
                LegacyInfo::GuidFolder(Guid { number: number as u128 })
            },
            None => LegacyInfo::NotFound,
        }
    }
}

/// What is known of an asset that is not refused, where `at_path` says what lies at its path: a
/// file, something else, or nothing.
pub fn legacy_info(asset: LegacyAsset, path: PathBuf, at_path: Option<bool>) -> (info: LegacyInfo)
    ensures
        info == info_of(asset, false, path, at_path),
{
    let here = match at_path {
        Some(is_file) => is_file == asset.is_file,
        None => false,
    };
    if here {
        if asset.is_file {
            LegacyInfo::FoundFile(path)
        } else {
            LegacyInfo::FoundFolder(path)
        }
    } else {
        let guid = match asset.guid {
            Some(text) => try_parse_guid(text.as_str()),
            None => None,
        };
        match guid {
            Some(found) => if asset.is_file {
                LegacyInfo::GuidFile(found)
            } else {
                LegacyInfo::GuidFolder(found)
            },
            None => LegacyInfo::NotFound,
        }
    }
}

/// An asset and where to look for it.
#[derive(Debug)]
pub struct AssetLookup<'a> {
    asset: LegacyAsset<'a>,
    relative: Option<String>,
}

impl<'a> AssetLookup<'a> {
    /// The asset.
    pub closed spec fn of_asset(self) -> LegacyAsset<'a> {
        self.asset
    }

    /// Where to look, from the project's folder on; `None` where the asset's path is refused.
    pub closed spec fn place(self) -> Option<Seq<char>> {
        match self.relative {
            Some(text) => Some(text@),
            None => None,
        }
    }

    /// The lookup of an asset, where `rooted` says whether its path begins at a root.
    pub fn with_answer(asset: LegacyAsset<'a>, rooted: bool) -> (lookup: Self)
        ensures
            lookup.of_asset() == asset,
            rooted ==> lookup.place() is None,
            !rooted ==> lookup.place() == Some(with_slashes(asset.path@)),
    {
        AssetLookup { asset, relative: path_to_look_at(asset.path.as_str(), rooted) }
    }

    /// The lookup of an asset.
    pub fn new(asset: LegacyAsset<'a>) -> (lookup: Self)
        ensures
            lookup.of_asset() == asset,
            may_be_rooted(asset.path@, lookup.place() is None),
            lookup.place() matches Some(text) ==> text == with_slashes(asset.path@),
    {
        AssetLookup { asset, relative: asset_path(asset.path.as_str()) }
    }

    /// Where to look, from the project's folder on; `None` where the asset's path is refused.
    pub fn relative(&self) -> (relative: Option<&String>)
        ensures
            (match relative {
                Some(text) => self.place() == Some(text@),
                None => self.place() is None,
            }),
    {
        match &self.relative {
            Some(text) => Some(text),
            None => None,
        }
    }

    /// Whether the asset is to be a file.
    pub fn is_file(&self) -> (is_file: bool)
        ensures
            is_file == self.of_asset().is_file,
    {
        self.asset.is_file
    }

    /// What is known of the asset, where `at_path` says what lies at `path`: a file, something
    /// else, or nothing. A refused asset counts as not found, whatever lies there.
    pub fn info(&self, path: PathBuf, at_path: Option<bool>) -> (info: LegacyInfo)
        ensures
            info == info_of(self.of_asset(), self.place() is None, path, at_path),
    {
        match &self.relative {
            Some(_) => legacy_info(self.asset, path, at_path),
            None => LegacyInfo::NotFound,
        }
    }
}

/// Some path of the list equals `path`.
pub open spec fn has_path(list: Seq<PathBuf>, path: PathBuf) -> bool {
    exists|i: int| 0 <= i < list.len() && paths_equal(#[trigger] list[i], path)
}

/// The list with `path`, unless a path of the list equals it.
pub open spec fn path_added(list: Seq<PathBuf>, path: PathBuf) -> Seq<PathBuf> {
    if has_path(list, path) {
        list
    } else {
        list.push(path)
    }
}

/// No path equals an earlier one.
pub open spec fn no_path_twice(list: Seq<PathBuf>) -> bool {
    forall|i: int, j: int| 0 <= i < j < list.len() ==> !paths_equal(list[i], list[j])
}

/// Adds a path, unless a path of the list equals it.
fn add_path(list: &mut Vec<PathBuf>, path: PathBuf)
    ensures
        final(list)@ == path_added(old(list)@, path),
{
    let mut i: usize = 0;
    while i < list.len()
        invariant
            i <= list@.len(),
            list@ == old(list)@,
            forall|j: int| 0 <= j < i ==> !paths_equal(#[trigger] list@[j], path),
        decreases list@.len() - i,
    {
        if same_path(&list[i], &path) {
            return;
        }
        i += 1;
    }
    list.push(path);
}

/// The model of a scan.
pub struct ScanView {
    /// The files found, in the order in which they were found.
    pub files: Seq<PathBuf>,
    /// The folders found, in the order in which they were found.
    pub folders: Seq<PathBuf>,
    /// The GUIDs that are looked for, each with whether it is that of a file.
    pub wanted: Map<u128, bool>,
}

impl ScanView {
    /// No path was found twice.
    pub open spec fn well_formed(self) -> bool {
        no_path_twice(self.files) && no_path_twice(self.folders)
    }

    /// The GUID is looked for, as that of a file or of a folder.
    pub open spec fn looks_for(self, guid: u128, is_file: bool) -> bool {
        self.wanted.contains_key(guid) && self.wanted[guid] == is_file
    }

    /// With one more file or folder.
    pub open spec fn found(self, is_file: bool, path: PathBuf) -> ScanView {
        if is_file {
            ScanView { files: path_added(self.files, path), ..self }
        } else {
            ScanView { folders: path_added(self.folders, path), ..self }
        }
    }

    /// With what is known of one more asset.
    pub open spec fn recorded(self, info: LegacyInfo) -> ScanView {
        match info {
            LegacyInfo::FoundFile(path) => self.found(true, path),
            LegacyInfo::FoundFolder(path) => self.found(false, path),
            LegacyInfo::NotFound => self,
            LegacyInfo::GuidFile(guid) => ScanView {
                wanted: self.wanted.insert(guid.number, true),
                ..self
            },
            LegacyInfo::GuidFolder(guid) => ScanView {
                wanted: self.wanted.insert(guid.number, false),
                ..self
            },
        }
    }

    /// With one more asset of the project: found, and no longer looked for, if it is looked for
    /// as what it is.
    pub open spec fn searched(self, guid: u128, is_file: bool, path: PathBuf) -> ScanView {
        if self.looks_for(guid, is_file) {
            ScanView { wanted: self.wanted.remove(guid), ..self.found(is_file, path) }
        } else {
            self
        }
    }
}

/// Where no GUID is looked for, no asset of the project counts as found.
pub proof fn law_nothing_wanted_nothing_found(
    scan: ScanView,
    guid: u128,
    is_file: bool,
    path: PathBuf,
)
    requires
        scan.wanted == Map::<u128, bool>::empty(),
    ensures
        scan.searched(guid, is_file, path) == scan,
{
}

/// An asset whose path is refused leaves no trace: it is not found, and its GUID is not looked
/// for.
pub proof fn law_refused_asset_leaves_no_trace(
    scan: ScanView,
    asset: LegacyAsset,
    path: PathBuf,
    at_path: Option<bool>,
)
    ensures
        scan.recorded(info_of(asset, true, path, at_path)) == scan,
{
}

/// An asset is looked for by its GUID only where it has one, its path is not refused, and it does
/// not lie at its path; and it is looked for as what it is.
pub proof fn law_guid_is_looked_for_only_if_not_at_its_path(
    asset: LegacyAsset,
    refused: bool,
    path: PathBuf,
    at_path: Option<bool>,
    is_file: bool,
    guid: u128,
)
    requires
        info_of(asset, refused, path, at_path) == guid_info(is_file, guid),
    ensures
        !refused,
        is_file == asset.is_file,
        at_path != Some(asset.is_file),
        known_guid(*asset.guid) == Some(guid as nat),
{
    if let Some(text) = *asset.guid {
        if guid_of(text@) is Some {
            lemma_hex_number_is_limited(text@);
            assert(hex_limit(32) == u128::MAX + 1) by {
                reveal_with_fuel(hex_limit, 33);
            }
        }
    }
}

/// A GUID is found once: another asset with the same one does not count.
pub proof fn law_guid_is_found_once(
    scan: ScanView,
    guid: u128,
    is_file: bool,
    path: PathBuf,
    other_is_file: bool,
    other_path: PathBuf,
)
    requires
        scan.looks_for(guid, is_file),
    ensures
        scan.searched(guid, is_file, path).searched(guid, other_is_file, other_path)
            == scan.searched(guid, is_file, path),
{
}

/// What was found stays found, whatever else is learned, and no path is found twice.
pub proof fn law_found_stays_found(
    scan: ScanView,
    info: LegacyInfo,
    guid: u128,
    is_file: bool,
    path: PathBuf,
)
    requires
        scan.well_formed(),
    ensures
        scan.files.is_prefix_of(scan.recorded(info).files),
        scan.folders.is_prefix_of(scan.recorded(info).folders),
        scan.files.is_prefix_of(scan.searched(guid, is_file, path).files),
        scan.folders.is_prefix_of(scan.searched(guid, is_file, path).folders),
        scan.recorded(info).well_formed(),
        scan.searched(guid, is_file, path).well_formed(),
{
}

/// The scan after all of `infos`.
pub open spec fn all_recorded(scan: ScanView, infos: Seq<LegacyInfo>) -> ScanView
    decreases infos.len(),
{
    if infos.len() == 0 {
        scan
    } else {
        all_recorded(scan, infos.drop_last()).recorded(infos.last())
    }
}

/// An asset of the project: its GUID, whether it is a file, and its path.
pub struct ProjectAsset {
    pub guid: u128,
    pub is_file: bool,
    pub path: PathBuf,
}

/// The scan after all of `assets`.
pub open spec fn all_searched(scan: ScanView, assets: Seq<ProjectAsset>) -> ScanView
    decreases assets.len(),
{
    if assets.len() == 0 {
        scan
    } else {
        let last = assets.last();
        all_searched(scan, assets.drop_last()).searched(last.guid, last.is_file, last.path)
    }
}

/// The list holds the path or one that equals it.
pub open spec fn holds_path(list: Seq<PathBuf>, path: PathBuf) -> bool {
    list.contains(path) || has_path(list, path)
}

/// The information that an asset was found at its path.
pub open spec fn found_info(is_file: bool, path: PathBuf) -> LegacyInfo {
    if is_file {
        LegacyInfo::FoundFile(path)
    } else {
        LegacyInfo::FoundFolder(path)
    }
}

/// The information that an asset is to be looked for by its GUID.
pub open spec fn guid_info(is_file: bool, guid: u128) -> LegacyInfo {
    if is_file {
        LegacyInfo::GuidFile(Guid { number: guid })
    } else {
        LegacyInfo::GuidFolder(Guid { number: guid })
    }
}

/// The files or the folders of a scan.
pub open spec fn found_as(scan: ScanView, is_file: bool) -> Seq<PathBuf> {
    if is_file {
        scan.files
    } else {
        scan.folders
    }
}

/// The path is that of an asset that was found where it was looked for, or that of an asset of
/// the project whose GUID was looked for, both times as the same kind.
pub open spec fn is_accounted_for(
    infos: Seq<LegacyInfo>,
    assets: Seq<ProjectAsset>,
    is_file: bool,
    path: PathBuf,
) -> bool {
    ||| infos.contains(found_info(is_file, path))
    ||| exists|k: int| #![trigger assets[k]]
        0 <= k < assets.len() && assets[k].is_file == is_file && assets[k].path == path
            && infos.contains(guid_info(is_file, assets[k].guid))
}

/// A list with one path more, unless it is there, holds what it held and that path, and nothing
/// else.
proof fn lemma_path_added(list: Seq<PathBuf>, path: PathBuf)
    ensures
        list.is_prefix_of(path_added(list, path)),
        holds_path(path_added(list, path), path),
        forall|other: PathBuf| #[trigger]
            path_added(list, path).contains(other) ==> list.contains(other) || other == path,
{
    let after = path_added(list, path);
    if !has_path(list, path) {
        assert(after[list.len() as int] == path);
        assert forall|other: PathBuf| #[trigger] after.contains(other) implies list.contains(other)
            || other == path by {
            let i = after.index_of(other);
            if i < list.len() {
                assert(list[i] == other);
            }
        }
    }
}

/// What a list holds, a longer one holds.
proof fn lemma_longer_list_holds(list: Seq<PathBuf>, longer: Seq<PathBuf>, path: PathBuf)
    requires
        list.is_prefix_of(longer),
        holds_path(list, path),
    ensures
        holds_path(longer, path),
{
    if list.contains(path) {
        let i = list.index_of(path);
        assert(longer[i] == path);
    } else {
        let i = choose|i: int| 0 <= i < list.len() && paths_equal(#[trigger] list[i], path);
        assert(paths_equal(longer[i], path));
    }
}

proof fn lemma_recorded(start: ScanView, infos: Seq<LegacyInfo>)
    requires
        start.files.len() == 0,
        start.folders.len() == 0,
        start.wanted == Map::<u128, bool>::empty(),
    ensures
        forall|is_file: bool, path: PathBuf|
            infos.contains(found_info(is_file, path)) ==> #[trigger] holds_path(
                found_as(all_recorded(start, infos), is_file),
                path,
            ),
        forall|is_file: bool, path: PathBuf| #[trigger]
            found_as(all_recorded(start, infos), is_file).contains(path) ==> infos.contains(
                found_info(is_file, path),
            ),
        forall|guid: u128| #[trigger]
            all_recorded(start, infos).wanted.contains_key(guid) ==> infos.contains(
                guid_info(all_recorded(start, infos).wanted[guid], guid),
            ),
    decreases infos.len(),
{
    if infos.len() > 0 {
        let shorter = infos.drop_last();
        let last = infos.last();
        let before = all_recorded(start, shorter);
        let after = all_recorded(start, infos);
        lemma_recorded(start, shorter);
        assert(infos[infos.len() - 1] == last);
        assert forall|info: LegacyInfo| #[trigger] shorter.contains(info) implies infos.contains(
            info,
        ) by {
            let i = shorter.index_of(info);
            assert(infos[i] == info);
        }
        assert forall|info: LegacyInfo| #[trigger] infos.contains(info) implies shorter.contains(
            info,
        ) || info == last by {
            let i = infos.index_of(info);
            if i < shorter.len() {
                assert(shorter[i] == info);
            }
        }
        assert forall|is_file: bool, path: PathBuf|
            infos.contains(found_info(is_file, path)) implies #[trigger] holds_path(
            found_as(after, is_file),
            path,
        ) by {
            match last {
                LegacyInfo::FoundFile(added) => {
                    lemma_path_added(before.files, added);
                },
                LegacyInfo::FoundFolder(added) => {
                    lemma_path_added(before.folders, added);
                },
                _ => {},
            }
            if shorter.contains(found_info(is_file, path)) {
                assert(holds_path(found_as(before, is_file), path));
                lemma_longer_list_holds(
                    found_as(before, is_file),
                    found_as(after, is_file),
                    path,
                );
            }
        }
        assert forall|is_file: bool, path: PathBuf| #[trigger]
            found_as(after, is_file).contains(path) implies infos.contains(
            found_info(is_file, path),
        ) by {
            match last {
                LegacyInfo::FoundFile(added) => {
                    lemma_path_added(before.files, added);
                },
                LegacyInfo::FoundFolder(added) => {
                    lemma_path_added(before.folders, added);
                },
                _ => {},
            }
            if found_as(before, is_file).contains(path) {
                assert(shorter.contains(found_info(is_file, path)));
            } else {
                assert(last == found_info(is_file, path));
            }
        }
        assert forall|guid: u128| #[trigger] after.wanted.contains_key(guid) implies infos.contains(
            guid_info(after.wanted[guid], guid),
        ) by {
            if last != guid_info(after.wanted[guid], guid) {
                assert(before.wanted.contains_key(guid));
                assert(shorter.contains(guid_info(before.wanted[guid], guid)));
            }
        }
    }
}

proof fn lemma_searched(start: ScanView, infos: Seq<LegacyInfo>, assets: Seq<ProjectAsset>)
    requires
        forall|is_file: bool, path: PathBuf| #[trigger]
            found_as(start, is_file).contains(path) ==> infos.contains(found_info(is_file, path)),
        forall|guid: u128| #[trigger]
            start.wanted.contains_key(guid) ==> infos.contains(
                guid_info(start.wanted[guid], guid),
            ),
    ensures
        start.files.is_prefix_of(all_searched(start, assets).files),
        start.folders.is_prefix_of(all_searched(start, assets).folders),
        all_searched(start, assets).wanted.submap_of(start.wanted),
        forall|is_file: bool, path: PathBuf| #[trigger]
            found_as(all_searched(start, assets), is_file).contains(path) ==> is_accounted_for(
                infos,
                assets,
                is_file,
                path,
            ),
    decreases assets.len(),
{
    if assets.len() > 0 {
        let shorter = assets.drop_last();
        let last = assets.last();
        let before = all_searched(start, shorter);
        let after = all_searched(start, assets);
        lemma_searched(start, infos, shorter);
        assert(assets[assets.len() - 1] == last);
        lemma_path_added(found_as(before, last.is_file), last.path);
        assert forall|is_file: bool, path: PathBuf| #[trigger]
            found_as(after, is_file).contains(path) implies is_accounted_for(
            infos,
            assets,
            is_file,
            path,
        ) by {
            if found_as(before, is_file).contains(path) {
                assert(is_accounted_for(infos, shorter, is_file, path));
                if !infos.contains(found_info(is_file, path)) {
                    let k = choose|k: int| #![trigger shorter[k]]
                        0 <= k < shorter.len() && shorter[k].is_file == is_file && shorter[k].path
                            == path && infos.contains(guid_info(is_file, shorter[k].guid));
                    assert(assets[k] == shorter[k]);
                }
            } else {
                assert(before.looks_for(last.guid, last.is_file));
                assert(start.wanted.contains_key(last.guid));
                assert(start.wanted[last.guid] == last.is_file);
                assert(assets[assets.len() - 1].path == path);
            }
        }
    }
}

/// What a whole search gives: every asset that was found at its path, and besides only assets
/// of the project whose GUID was looked for, files among the files and folders among the
/// folders.
pub proof fn law_search_gives_what_was_looked_for(
    start: ScanView,
    infos: Seq<LegacyInfo>,
    assets: Seq<ProjectAsset>,
    is_file: bool,
    path: PathBuf,
)
    requires
        start.files.len() == 0,
        start.folders.len() == 0,
        start.wanted == Map::<u128, bool>::empty(),
    ensures
        infos.contains(found_info(is_file, path)) ==> holds_path(
            found_as(all_searched(all_recorded(start, infos), assets), is_file),
            path,
        ),
        found_as(all_searched(all_recorded(start, infos), assets), is_file).contains(path)
            ==> is_accounted_for(infos, assets, is_file, path),
{
    let middle = all_recorded(start, infos);
    lemma_recorded(start, infos);
    lemma_searched(middle, infos, assets);
    let end = all_searched(middle, assets);
    if infos.contains(found_info(is_file, path)) {
        assert(holds_path(found_as(middle, is_file), path));
        lemma_longer_list_holds(found_as(middle, is_file), found_as(end, is_file), path);
    }
}

/// A search finds no more paths than there are assets to look for.
pub proof fn law_search_finds_no_more_than_listed(
    start: ScanView,
    infos: Seq<LegacyInfo>,
    assets: Seq<ProjectAsset>,
)
    requires
        start.files.len() == 0,
        start.folders.len() == 0,
        start.wanted == Map::<u128, bool>::empty(),
    ensures
        ({
            let end = all_searched(all_recorded(start, infos), assets);
            end.files.len() + end.folders.len() <= infos.len()
        }),
{
    lemma_recorded_count(start, infos);
    lemma_searched_count(all_recorded(start, infos), assets);
}

/// How many assets are found or looked for.
spec fn scan_count(scan: ScanView) -> nat {
    scan.files.len() + scan.folders.len() + scan.wanted.len()
}

proof fn lemma_recorded_count(start: ScanView, infos: Seq<LegacyInfo>)
    requires
        scan_count(start) == 0,
        start.wanted.dom().finite(),
    ensures
        all_recorded(start, infos).wanted.dom().finite(),
        scan_count(all_recorded(start, infos)) <= infos.len(),
    decreases infos.len(),
{
    if infos.len() > 0 {
        lemma_recorded_count(start, infos.drop_last());
    }
}

proof fn lemma_searched_count(start: ScanView, assets: Seq<ProjectAsset>)
    requires
        start.wanted.dom().finite(),
    ensures
        all_searched(start, assets).wanted.dom().finite(),
        scan_count(all_searched(start, assets)) <= scan_count(start),
    decreases assets.len(),
{
    if assets.len() > 0 {
        lemma_searched_count(start, assets.drop_last());
    }
}

/// The assets found so far, and those that are still looked for by GUID.
#[derive(Debug)]
pub struct LegacyScan {
    files: Vec<PathBuf>,
    folders: Vec<PathBuf>,
    wanted: HashMap<u128, bool>,
}

impl View for LegacyScan {
    type V = ScanView;

    closed spec fn view(&self) -> ScanView {
        ScanView { files: self.files@, folders: self.folders@, wanted: self.wanted@ }
    }
}

impl LegacyScan {
    /// Nothing found, nothing looked for.
    pub fn new() -> (scan: Self)
        ensures
            scan@.files == Seq::<PathBuf>::empty(),
            scan@.folders == Seq::<PathBuf>::empty(),
            scan@.wanted == Map::<u128, bool>::empty(),
            scan@.well_formed(),
    {
        LegacyScan { files: Vec::new(), folders: Vec::new(), wanted: HashMap::new() }
    }

    /// Takes note of what is known of one asset.
    pub fn record(&mut self, info: LegacyInfo)
        ensures
            final(self)@ == old(self)@.recorded(info),
            old(self)@.well_formed() ==> final(self)@.well_formed(),
    {
        broadcast use vstd::std_specs::hash::group_hash_axioms;

        match info {
            LegacyInfo::FoundFile(path) => {
                add_path(&mut self.files, path);
            },
            LegacyInfo::FoundFolder(path) => {
                add_path(&mut self.folders, path);
            },
            LegacyInfo::NotFound => {},
            LegacyInfo::GuidFile(guid) => {
                self.wanted.insert(guid.number, true);
            },
            LegacyInfo::GuidFolder(guid) => {
                self.wanted.insert(guid.number, false);
            },
        }
    }

    /// Whether some asset is still looked for by GUID.
    pub fn is_searching(&self) -> (searching: bool)
        ensures
            searching == (self@.wanted != Map::<u128, bool>::empty()),
    {
        broadcast use vstd::std_specs::hash::group_hash_axioms;

        let searching = self.wanted.len() != 0;
        proof {
            if !searching {
                assert(self.wanted@.dom() =~= Set::empty());
                assert(self.wanted@ =~= Map::<u128, bool>::empty());
            }
        }
        searching
    }

    /// Takes note of an asset of the project: its GUID, whether it is a file, and its path. It
    /// counts as found if it is looked for as what it is, and is then no longer looked for.
    pub fn record_asset(&mut self, guid: Guid, is_file: bool, path: PathBuf)
        ensures
            final(self)@ == old(self)@.searched(guid.number, is_file, path),
            old(self)@.well_formed() ==> final(self)@.well_formed(),
    {
        broadcast use vstd::std_specs::hash::group_hash_axioms;

        let wanted = match self.wanted.get(&guid.number) {
            Some(as_file) => *as_file == is_file,
            None => false,
        };
        if wanted {
            self.wanted.remove(&guid.number);
            if is_file {
                add_path(&mut self.files, path);
            } else {
                add_path(&mut self.folders, path);
            }
        }
    }

    /// The files and the folders that were found.
    pub fn into_found(self) -> (found: (Vec<PathBuf>, Vec<PathBuf>))
        ensures
            found.0@ == self@.files,
            found.1@ == self@.folders,
    {
        (self.files, self.folders)
    }
}

} // verus!

//! Looking for a newer release: versions, release files and downloads.

use vstd::prelude::*;

use crate::json;
use crate::json::{Json, JsonTree};
use crate::text;

verus! {

/// The repository whose releases are looked at.
pub const REPO: &'static str = "Masterchiefm/zcode-speed-panel";

/// The latest release, with the installer for one platform.
#[derive(Debug)]
pub struct Release {
    /// Its tag, such as `v0.3.0`.
    pub tag: String,
    /// The tag without its leading `v`.
    pub version: String,
    /// The page of the release.
    pub url: String,
    pub notes: String,
    /// The file name of the installer.
    pub asset_name: String,
    pub asset_url: String,
    /// How many bytes the installer has, 0 where that is not told.
    pub asset_size: u64,
}

/// The text without the letters `v` and `V` that lead it.
pub open spec fn without_v(s: Seq<char>) -> Seq<char>
    decreases s.len(),
{
    if s.len() > 0 && (s[0] == 'v' || s[0] == 'V') {
        without_v(s.drop_first())
    } else {
        s
    }
}

/// The text up to its first `-` or `+`.
pub open spec fn core_part(s: Seq<char>) -> Seq<char>
    decreases s.len(),
{
    if s.len() == 0 {
        s
    } else {
        let front = core_part(s.drop_last());
        if front.len() < s.len() - 1 || s.last() == '-' || s.last() == '+' {
            front
        } else {
            s
        }
    }
}

/// The pieces of a text between its dots.
pub open spec fn split_dots(s: Seq<char>) -> Seq<Seq<char>>
    decreases s.len(),
{
    if s.len() == 0 {
        seq![Seq::empty()]
    } else {
        let front = split_dots(s.drop_last());
        if s.last() == '.' {
            front.push(Seq::empty())
        } else {
            front.update(front.len() - 1, front.last().push(s.last()))
        }
    }
}

/// Piece `i` as a number; a piece that is not there counts as 0.
pub open spec fn piece(parts: Seq<Seq<char>>, i: int) -> Option<u64> {
    if i < parts.len() {
        text::number_of(parts[i])
    } else {
        Some(0u64)
    }
}

/// The version that a tag names: one to three numbers, after any leading `v` and
/// before any pre-release or build suffix.
pub open spec fn version_of(tag: Seq<char>) -> Option<(u64, u64, u64)> {
    let parts = split_dots(core_part(without_v(text::trimmed(tag))));
    match (piece(parts, 0), piece(parts, 1), piece(parts, 2)) {
        (Some(a), Some(b), Some(c)) => if parts.len() <= 3 {
            Some((a, b, c))
        } else {
            None
        },
        _ => None,
    }
}

/// `a` is a later version than `b`.
pub open spec fn later(a: (u64, u64, u64), b: (u64, u64, u64)) -> bool {
    a.0 > b.0 || (a.0 == b.0 && (a.1 > b.1 || (a.1 == b.1 && a.2 > b.2)))
}

/// The tag `candidate` names a later version than the tag `current`; one that
/// names none is never newer.
pub open spec fn newer(candidate: Seq<char>, current: Seq<char>) -> bool {
    match (version_of(candidate), version_of(current)) {
        (Some(c), Some(cur)) => later(c, cur),
        _ => false,
    }
}

/// Where the text without its leading `v`s begins.
fn skip_v(s: &[char], from: usize, to: usize) -> (i: usize)
    requires
        from <= to <= s@.len(),
    ensures
        from <= i <= to,
        s@.subrange(i as int, to as int) == without_v(s@.subrange(from as int, to as int)),
{
    let ghost whole = without_v(s@.subrange(from as int, to as int));
    let mut i: usize = from;
    while i < to && (s[i] == 'v' || s[i] == 'V')
        invariant
            from <= i <= to <= s@.len(),
            without_v(s@.subrange(i as int, to as int)) == whole,
        decreases to - i,
    {
        assert(s@.subrange(i as int, to as int).drop_first() =~= s@.subrange(i + 1, to as int));
        i = i + 1;
    }
    i
}

/// Where the core of the text ends.
fn core_end(s: &[char], from: usize, to: usize) -> (i: usize)
    requires
        from <= to <= s@.len(),
    ensures
        from <= i <= to,
        s@.subrange(from as int, i as int) == core_part(s@.subrange(from as int, to as int)),
{
    let mut i: usize = from;
    while i < to && s[i] != '-' && s[i] != '+'
        invariant
            from <= i <= to <= s@.len(),
            core_part(s@.subrange(from as int, i as int)) == s@.subrange(from as int, i as int),
        decreases to - i,
    {
        assert(s@.subrange(from as int, i + 1).drop_last() =~= s@.subrange(from as int, i as int));
        i = i + 1;
    }
    let ghost core = s@.subrange(from as int, i as int);
    let mut j: usize = i;
    while j < to
        invariant
            from <= i <= j <= to <= s@.len(),
            core == s@.subrange(from as int, i as int),
            core_part(s@.subrange(from as int, j as int)) == core,
            i < to ==> (s@[i as int] == '-' || s@[i as int] == '+'),
        decreases to - j,
    {
        assert(s@.subrange(from as int, j + 1).drop_last() =~= s@.subrange(from as int, j as int));
        j = j + 1;
    }
    i
}

/// The places at which the pieces between the dots begin and end.
fn dot_pieces(s: &[char], from: usize, to: usize) -> (cuts: Vec<(usize, usize)>)
    requires
        from <= to <= s@.len(),
    ensures
        cuts@.len() == split_dots(s@.subrange(from as int, to as int)).len(),
        cuts@.len() > 0,
        forall|i: int|
            0 <= i < cuts@.len() ==> (#[trigger] cuts@[i]).0 <= cuts@[i].1 <= s@.len() && s@.subrange(
                cuts@[i].0 as int,
                cuts@[i].1 as int,
            ) == split_dots(s@.subrange(from as int, to as int))[i],
{
    let mut done: Vec<(usize, usize)> = Vec::new();
    let mut start: usize = from;
    let mut i: usize = from;
    assert(s@.subrange(from as int, from as int) =~= Seq::empty());
    while i < to
        invariant
            from <= start <= i <= to <= s@.len(),
            split_dots(s@.subrange(from as int, i as int)).len() == done@.len() + 1,
            split_dots(s@.subrange(from as int, i as int)).last() == s@.subrange(start as int, i as int),
            forall|k: int|
                0 <= k < done@.len() ==> (#[trigger] done@[k]).0 <= done@[k].1 <= s@.len() && s@.subrange(
                    done@[k].0 as int,
                    done@[k].1 as int,
                ) == split_dots(s@.subrange(from as int, i as int))[k],
        decreases to - i,
    {
        proof {
            assert(s@.subrange(from as int, i + 1).drop_last() =~= s@.subrange(from as int, i as int));
            assert(s@.subrange(start as int, i + 1) =~= s@.subrange(start as int, i as int).push(s@[i as int]));
        }
        if s[i] == '.' {
            done.push((start, i));
            start = i + 1;
            assert(s@.subrange(start as int, start as int) =~= Seq::empty());
        }
        i = i + 1;
    }
    done.push((start, to));
    done
}

/// Reads a tag as a version.
pub fn parse_version(tag: &str) -> (v: Option<(u64, u64, u64)>)
    ensures
        v == version_of(tag@),
{
    let chars: Vec<char> = text::chars_of(tag);
    let (lo, hi): (usize, usize) = text::trim_bounds(&chars);
    let from: usize = skip_v(&chars, lo, hi);
    let to: usize = core_end(&chars, from, hi);
    let cuts: Vec<(usize, usize)> = dot_pieces(&chars, from, to);
    let major: u64 = match text::parse_number(&chars, cuts[0].0, cuts[0].1) {
        Some(n) => n,
        None => {
            return None;
        },
    };
    let minor: u64 = if cuts.len() > 1 {
        match text::parse_number(&chars, cuts[1].0, cuts[1].1) {
            Some(n) => n,
            None => {
                return None;
            },
        }
    } else {
        0
    };
    let patch: u64 = if cuts.len() > 2 {
        match text::parse_number(&chars, cuts[2].0, cuts[2].1) {
            Some(n) => n,
            None => {
                return None;
            },
        }
    } else {
        0
    };
    if cuts.len() > 3 {
        return None;
    }
    Some((major, minor, patch))
}

/// Whether the tag `candidate` names a later version than `current`.
pub fn is_newer(candidate: &str, current: &str) -> (r: bool)
    ensures
        r == newer(candidate@, current@),
{
    match (parse_version(candidate), parse_version(current)) {
        (Some(c), Some(cur)) => c.0 > cur.0 || (c.0 == cur.0 && (c.1 > cur.1 || (c.1 == cur.1 && c.2
            > cur.2))),
        _ => false,
    }
}

/// The name of a platform, by its system and its processor.
pub open spec fn platform_name(os: Seq<char>, arch: Seq<char>) -> Seq<char> {
    if os == "windows"@ && arch == "x86_64"@ {
        "win-x64"@
    } else if os == "macos"@ && arch == "aarch64"@ {
        "mac-aarch64"@
    } else if os == "macos"@ && arch == "x86_64"@ {
        "mac-x64"@
    } else {
        "unsupported"@
    }
}

pub fn platform(os: &str, arch: &str) -> (name: String)
    ensures
        name@ == platform_name(os@, arch@),
{
    if text::same(os, "windows") && text::same(arch, "x86_64") {
        "win-x64".to_owned()
    } else if text::same(os, "macos") && text::same(arch, "aarch64") {
        "mac-aarch64".to_owned()
    } else if text::same(os, "macos") && text::same(arch, "x86_64") {
        "mac-x64".to_owned()
    } else {
        "unsupported".to_owned()
    }
}

/// How the installer for a platform is named at its end.
pub open spec fn installer_suffix(platform: Seq<char>) -> Option<Seq<char>> {
    if platform == "win-x64"@ {
        Some("_x64-setup.exe"@)
    } else if platform == "mac-x64"@ {
        Some("_x64.dmg"@)
    } else if platform == "mac-aarch64"@ {
        Some("_aarch64.dmg"@)
    } else {
        None
    }
}

/// Whether file `name` is an installer for a platform.
pub open spec fn installs_on(name: Seq<char>, platform: Seq<char>) -> bool {
    installer_suffix(platform) is Some && text::ends(name, installer_suffix(platform)->0)
}

fn suffix_of(platform: &str) -> (s: Option<&'static str>)
    ensures
        s is Some <==> installer_suffix(platform@) is Some,
        s is Some ==> Some(s->0@) == installer_suffix(platform@),
{
    if text::same(platform, "win-x64") {
        Some("_x64-setup.exe")
    } else if text::same(platform, "mac-x64") {
        Some("_x64.dmg")
    } else if text::same(platform, "mac-aarch64") {
        Some("_aarch64.dmg")
    } else {
        None
    }
}

/// The first of the files that is an installer for the platform.
pub fn pick_asset(assets: &[String], platform: &str) -> (r: Option<usize>)
    ensures
        match r {
            Some(i) => i < assets@.len() && installs_on(assets@[i as int]@, platform@) && forall|j: int|
                0 <= j < i ==> !installs_on((#[trigger] assets@[j])@, platform@),
            None => forall|j: int| 0 <= j < assets@.len() ==> !installs_on((#[trigger] assets@[j])@, platform@),
        },
{
    let suffix: &str = match suffix_of(platform) {
        Some(s) => s,
        None => {
            return None;
        },
    };
    let mut i: usize = 0;
    while i < assets.len()
        invariant
            i <= assets@.len(),
            installer_suffix(platform@) == Some(suffix@),
            forall|j: int| 0 <= j < i ==> !installs_on((#[trigger] assets@[j])@, platform@),
        decreases assets.len() - i,
    {
        if text::ends_with(assets[i].as_str(), suffix) {
            return Some(i);
        }
        i = i + 1;
    }
    None
}

/// A release, as a value of specifications.
pub struct ReleaseView {
    pub tag: Seq<char>,
    pub version: Seq<char>,
    pub url: Seq<char>,
    pub notes: Seq<char>,
    pub asset_name: Seq<char>,
    pub asset_url: Seq<char>,
    pub asset_size: u64,
}

impl View for Release {
    type V = ReleaseView;

    open spec fn view(&self) -> ReleaseView {
        ReleaseView {
            tag: self.tag@,
            version: self.version@,
            url: self.url@,
            notes: self.notes@,
            asset_name: self.asset_name@,
            asset_url: self.asset_url@,
            asset_size: self.asset_size,
        }
    }
}

/// Whether a release file is named and is an installer for the platform.
pub open spec fn is_installer(asset: JsonTree, platform: Seq<char>) -> bool {
    match asset.text_field("name"@) {
        Some(name) => installs_on(name, platform),
        None => false,
    }
}

/// The first of the release files that is an installer for the platform.
pub open spec fn installer_in(assets: Seq<JsonTree>, platform: Seq<char>) -> Option<JsonTree>
    decreases assets.len(),
{
    if assets.len() == 0 {
        None
    } else if is_installer(assets[0], platform) {
        Some(assets[0])
    } else {
        installer_in(assets.drop_first(), platform)
    }
}

/// The release that a description of one tells of, with the installer for the
/// platform. Without a tag, a page, a list of files or an installer there is none.
pub open spec fn release_in(doc: JsonTree, platform: Seq<char>) -> Option<ReleaseView> {
    match (doc.text_field("tag_name"@), doc.text_field("html_url"@), doc.field("assets"@)) {
        (Some(tag), Some(url), Some(JsonTree::Array(assets))) => match installer_in(assets, platform) {
            Some(asset) => match asset.text_field("browser_download_url"@) {
                Some(link) => Some(
                    ReleaseView {
                        tag: text::trimmed(tag),
                        version: without_v(text::trimmed(tag)),
                        url,
                        notes: text::trimmed(
                            match doc.text_field("body"@) {
                                Some(notes) => notes,
                                None => Seq::empty(),
                            },
                        ),
                        asset_name: asset.text_field("name"@)->0,
                        asset_url: link,
                        asset_size: match asset.number_field("size"@) {
                            Some(n) => n,
                            None => 0,
                        },
                    },
                ),
                None => None,
            },
            None => None,
        },
        _ => None,
    }
}

fn strip_v(s: &str) -> (r: String)
    ensures
        r@ == without_v(s@),
{
    let chars: Vec<char> = text::chars_of(s);
    assert(chars@.subrange(0, chars@.len() as int) =~= s@);
    let from: usize = skip_v(&chars, 0, chars.len());
    s.substring_char(from, chars.len()).to_owned()
}

proof fn lemma_first_installer(assets: Seq<JsonTree>, platform: Seq<char>, m: int)
    requires
        0 <= m <= assets.len(),
        forall|j: int| 0 <= j < m ==> !is_installer(#[trigger] assets[j], platform),
        m < assets.len() ==> is_installer(assets[m], platform),
    ensures
        installer_in(assets, platform) == (if m < assets.len() {
            Some(assets[m])
        } else {
            None
        }),
    decreases assets.len(),
{
    if m > 0 {
        let rest = assets.drop_first();
        assert(!is_installer(assets[0], platform));
        assert forall|j: int| 0 <= j < m - 1 implies !is_installer(#[trigger] rest[j], platform) by {
            assert(rest[j] == assets[j + 1]);
        }
        lemma_first_installer(rest, platform, m - 1);
    }
}

/// Finds the installer for the platform among the files of a release.
fn find_installer<'a>(assets: &'a Vec<Json>, platform: &str) -> (r: Option<(String, &'a Json)>)
    ensures
        ({
            let found = installer_in(Json::Array(*assets).tree()->Array_0, platform@);
            &&& r is Some <==> found is Some
            &&& r matches Some((name, asset)) ==> Some(asset.tree()) == found && asset.tree().text_field("name"@)
                == Some(name@)
        }),
{
    let ghost trees = Json::Array(*assets).tree()->Array_0;
    let mut names: Vec<String> = Vec::new();
    let mut places: Vec<usize> = Vec::new();
    let mut i: usize = 0;
    while i < assets.len()
        invariant
            i <= assets@.len(),
            trees == Json::Array(*assets).tree()->Array_0,
            trees.len() == assets@.len(),
            names@.len() == places@.len(),
            forall|k: int|
                0 <= k < places@.len() ==> (#[trigger] places@[k]) < i && trees[places@[k] as int].text_field(
                    "name"@,
                ) == Some(names@[k]@),
            forall|k: int, l: int|
                0 <= k < l < places@.len() ==> (#[trigger] places@[k]) < (#[trigger] places@[l]),
            forall|j: int|
                0 <= j < i && (#[trigger] trees[j]).text_field("name"@) is Some ==> exists|k: int|
                    0 <= k < places@.len() && #[trigger] places@[k] == j,
        decreases assets.len() - i,
    {
        let ghost before = places@;
        assert(trees[i as int] == assets@[i as int].tree());
        match assets[i].get_text("name") {
            Some(name) => {
                names.push(name);
                places.push(i);
                proof {
                    assert forall|j: int|
                        0 <= j < i + 1 && (#[trigger] trees[j]).text_field("name"@) is Some implies exists|k: int|
                        0 <= k < places@.len() && #[trigger] places@[k] == j by {
                        if j < i {
                            let k = choose|k: int| 0 <= k < before.len() && #[trigger] before[k] == j;
                            assert(places@[k] == j);
                        } else {
                            assert(places@[before.len() as int] == j);
                        }
                    }
                }
            },
            None => {},
        }
        i = i + 1;
    }
    match pick_asset(&names, platform) {
        Some(k) => {
            let m: usize = places[k];
            proof {
                assert forall|j: int| 0 <= j < m implies !is_installer(#[trigger] trees[j], platform@) by {
                    if trees[j].text_field("name"@) is Some {
                        let l = choose|l: int| 0 <= l < places@.len() && #[trigger] places@[l] == j;
                        if k < l {
                            assert(places@[k as int] < places@[l]);
                        }
                        assert(!installs_on(names@[l]@, platform@));
                    }
                }
                lemma_first_installer(trees, platform@, m as int);
                assert(trees[m as int] == assets@[m as int].tree());
            }
            Some((names[k].clone(), &assets[m]))
        },
        None => {
            proof {
                assert forall|j: int| 0 <= j < trees.len() implies !is_installer(#[trigger] trees[j], platform@) by {
                    if trees[j].text_field("name"@) is Some {
                        let l = choose|l: int| 0 <= l < places@.len() && #[trigger] places@[l] == j;
                        assert(!installs_on(names@[l]@, platform@));
                    }
                }
                lemma_first_installer(trees, platform@, trees.len() as int);
            }
            None
        },
    }
}

/// Reads a release from its description.
pub fn release_of(doc: &Json, platform: &str) -> (r: Option<Release>)
    ensures
        match r {
            Some(release) => release_in(doc.tree(), platform@) == Some(release@),
            None => release_in(doc.tree(), platform@) is None,
        },
{
    let tag: String = match doc.get_text("tag_name") {
        Some(t) => text::trim(t.as_str()),
        None => {
            return None;
        },
    };
    let url: String = match doc.get_text("html_url") {
        Some(u) => u,
        None => {
            return None;
        },
    };
    let notes: String = match doc.get_text("body") {
        Some(n) => text::trim(n.as_str()),
        None => {
            proof {
                reveal_strlit("");
                assert(""@ =~= Seq::<char>::empty());
            }
            text::trim("")
        },
    };
    match doc.get("assets") {
        Some(Json::Array(assets)) => {
            match find_installer(assets, platform) {
                Some((asset_name, asset)) => {
                    let asset_url: String = match asset.get_text("browser_download_url") {
                        Some(u) => u,
                        None => {
                            return None;
                        },
                    };
                    let asset_size: u64 = match asset.get_number("size") {
                        Some(n) => n,
                        None => 0,
                    };
                    let version: String = strip_v(tag.as_str());
                    Some(Release { tag, version, url, notes, asset_name, asset_url, asset_size })
                },
                None => None,
            }
        },
        _ => None,
    }
}

/// Reads a release from the text that describes it. What is no JSON, or tells of
/// no release for the platform, is no release.
pub fn latest_release(body: &str, platform: &str) -> (r: Option<Release>)
    ensures
        match r {
            Some(release) => json::json_document(body@) is Some && release_in(
                json::json_document(body@)->0,
                platform@,
            ) == Some(release@),
            None => json::json_document(body@) is None || release_in(
                json::json_document(body@)->0,
                platform@,
            ) is None,
        },
{
    match json::parse(body) {
        Some(doc) => release_of(&doc, platform),
        None => None,
    }
}

/// Why a download that came to its end cannot be used.
#[derive(Clone, Copy, Debug, PartialEq, Eq, Structural)]
pub enum DownloadError {
    Empty,
    Incomplete { written: u64, total: u64 },
}

/// A download under way.
#[derive(Clone, Copy, Debug, PartialEq, Eq, Structural)]
pub struct Download {
    /// Bytes that have come in.
    pub written: u64,
    /// Bytes to expect, 0 where that is not known.
    pub total: u64,
}

impl Download {
    /// How many bytes a response announces: its own length where it tells one
    /// above 0, or the size that the release tells.
    pub open spec fn expected(content_length: Option<Seq<char>>, asset_size: u64) -> u64 {
        match content_length {
            Some(s) => match text::number_of(s) {
                Some(n) => if n > 0 {
                    n
                } else {
                    asset_size
                },
                None => asset_size,
            },
            None => asset_size,
        }
    }

    /// A download that begins, by the length header of the response.
    pub fn begin(content_length: Option<&str>, asset_size: u64) -> (d: Self)
        ensures
            d.written == 0,
            d.total == Self::expected(
                (match content_length {
                    Some(s) => Some(s@),
                    None => None,
                }),
                asset_size,
            ),
    {
        let total: u64 = match content_length {
            Some(s) => match text::parse_u64(s) {
                Some(n) => if n > 0 {
                    n
                } else {
                    asset_size
                },
                None => asset_size,
            },
            None => asset_size,
        };
        Download { written: 0, total }
    }

    /// Counts `n` more bytes.
    pub fn advance(&mut self, n: u64)
        requires
            old(self).written + n <= u64::MAX,
        ensures
            final(self).written == old(self).written + n,
            final(self).total == old(self).total,
    {
        self.written = self.written + n;
    }

    /// Whether a download that came to its end can be used: something came in,
    /// and all of it where it is known how much that is.
    pub fn finish(&self) -> (r: Result<(), DownloadError>)
        ensures
            r == (if self.written == 0 {
                Err(DownloadError::Empty)
            } else if self.total > 0 && self.written != self.total {
                Err(DownloadError::Incomplete { written: self.written, total: self.total })
            } else {
                Ok(())
            }),
    {
        if self.written == 0 {
            return Err(DownloadError::Empty);
        }
        if self.total > 0 && self.written != self.total {
            return Err(DownloadError::Incomplete { written: self.written, total: self.total });
        }
        Ok(())
    }
}

/// No version is newer than itself.
pub proof fn same_version_is_not_newer(a: Seq<char>, b: Seq<char>)
    requires
        version_of(a) == version_of(b),
    ensures
        !newer(a, b),
{
}

/// Of two versions at most one is newer than the other.
pub proof fn newer_goes_one_way(a: Seq<char>, b: Seq<char>)
    requires
        newer(a, b),
    ensures
        !newer(b, a),
{
}

/// What is newer than a newer version is newer.
pub proof fn newer_is_transitive(a: Seq<char>, b: Seq<char>, c: Seq<char>)
    requires
        newer(a, b),
        newer(b, c),
    ensures
        newer(a, c),
{
}

/// A tag that names no version is never newer, and nothing is newer than it.
pub proof fn unreadable_tag_is_no_update(a: Seq<char>, b: Seq<char>)
    requires
        version_of(a) is None,
    ensures
        !newer(a, b),
        !newer(b, a),
{
}

/// No file is an installer for two platforms: one is never offered the installer
/// of another.
pub proof fn installers_are_told_apart(name: Seq<char>, a: Seq<char>, b: Seq<char>)
    requires
        installs_on(name, a),
        installs_on(name, b),
    ensures
        a == b,
{
    reveal_strlit("_x64-setup.exe");
    reveal_strlit("_x64.dmg");
    reveal_strlit("_aarch64.dmg");
    let n = name.len();
    if a != b {
        let sa = installer_suffix(a)->0;
        let sb = installer_suffix(b)->0;
        let ta = name.subrange(n - sa.len(), n as int);
        let tb = name.subrange(n - sb.len(), n as int);
        assert(ta == sa && tb == sb);
        assert(ta[sa.len() - 1] == name[n - 1] && tb[sb.len() - 1] == name[n - 1]);
        assert(ta[sa.len() - 8] == name[n - 8] && tb[sb.len() - 8] == name[n - 8]);
    }
}

} // verus!

//! What versions, releases and downloads are told from.

use vstd::prelude::*;

use crate::json::JsonTree;
use crate::text;
use crate::text_laws;
use crate::updater;
use crate::updater::Download;

verus! {

/// Every letter `v` that leads a text is dropped, and nothing else.
pub proof fn leading_letters_are_dropped(lead: Seq<char>, rest: Seq<char>)
    requires
        forall|i: int| 0 <= i < lead.len() ==> #[trigger] lead[i] == 'v' || lead[i] == 'V',
        rest.len() > 0 ==> rest[0] != 'v' && rest[0] != 'V',
    ensures
        updater::without_v(lead + rest) == rest,
    decreases lead.len(),
{
    let s = lead + rest;
    if lead.len() == 0 {
        assert(s =~= rest);
    } else {
        assert(s[0] == lead[0]);
        assert(s.drop_first() =~= lead.drop_first() + rest);
        assert forall|i: int| 0 <= i < lead.drop_first().len() implies #[trigger] lead.drop_first()[i] == 'v'
            || lead.drop_first()[i] == 'V' by {
            assert(lead[i + 1] == lead.drop_first()[i]);
        }
        leading_letters_are_dropped(lead.drop_first(), rest);
    }
}

/// A suffix goes from the first `-` or `+` on.
pub proof fn suffix_is_dropped(core: Seq<char>, suffix: Seq<char>)
    requires
        forall|i: int| 0 <= i < core.len() ==> #[trigger] core[i] != '-' && core[i] != '+',
        suffix.len() > 0 ==> suffix[0] == '-' || suffix[0] == '+',
    ensures
        updater::core_part(core + suffix) == core,
    decreases core.len() + suffix.len(),
{
    let s = core + suffix;
    if suffix.len() > 0 {
        let front = suffix.drop_last();
        assert(s.drop_last() =~= core + front);
        if front.len() > 0 {
            assert(front[0] == suffix[0]);
        } else {
            assert(s.last() == suffix[0]);
        }
        suffix_is_dropped(core, front);
    } else if core.len() > 0 {
        let front = core.drop_last();
        assert(s =~= core);
        assert(s.drop_last() =~= front + suffix);
        assert forall|i: int| 0 <= i < front.len() implies #[trigger] front[i] != '-' && front[i] != '+' by {
            assert(front[i] == core[i]);
        }
        suffix_is_dropped(front, suffix);
        assert(core[core.len() - 1] != '-');
    } else {
        assert(s =~= core);
    }
}

proof fn lemma_pieces(s: Seq<char>)
    ensures
        updater::split_dots(s).len() > 0,
    decreases s.len(),
{
    if s.len() > 0 {
        lemma_pieces(s.drop_last());
    }
}

/// A text without a dot is a single piece. A dot between two texts parts the pieces of
/// the one from those of the other.
pub proof fn dots_part_the_pieces(a: Seq<char>, b: Seq<char>)
    ensures
        (forall|i: int| 0 <= i < a.len() ==> #[trigger] a[i] != '.') ==> updater::split_dots(a) == seq![a],
        updater::split_dots(a + seq!['.'] + b) == updater::split_dots(a) + updater::split_dots(b),
    decreases a.len() + b.len(),
{
    if forall|i: int| 0 <= i < a.len() ==> #[trigger] a[i] != '.' {
        if a.len() > 0 {
            let front = a.drop_last();
            assert forall|i: int| 0 <= i < front.len() implies #[trigger] front[i] != '.' by {
                assert(front[i] == a[i]);
            }
            dots_part_the_pieces(front, Seq::empty());
            assert(a[a.len() - 1] != '.');
            assert(updater::split_dots(a) =~= seq![a]) by {
                assert(front.push(a.last()) =~= a);
            }
        } else {
            assert(updater::split_dots(a) =~= seq![a]) by {
                assert(a =~= Seq::empty());
            }
        }
    }
    let s = a + seq!['.'] + b;
    let (p, q) = (updater::split_dots(a), updater::split_dots(b));
    if b.len() == 0 {
        assert(s.drop_last() =~= a);
        assert(s.last() == '.');
        assert(updater::split_dots(s) =~= p + q);
    } else {
        let front = b.drop_last();
        assert(s.drop_last() =~= a + seq!['.'] + front);
        assert(s.last() == b.last());
        dots_part_the_pieces(a, front);
        lemma_pieces(a);
        lemma_pieces(front);
        assert(updater::split_dots(s) =~= p + q);
    }
}

/// Neither a dot nor the beginning of a suffix.
pub open spec fn plain(s: Seq<char>) -> bool {
    forall|i: int| 0 <= i < s.len() ==> #[trigger] s[i] != '.' && s[i] != '-' && s[i] != '+'
}

proof fn lemma_version(tag: Seq<char>, lead: Seq<char>, core: Seq<char>, suffix: Seq<char>)
    requires
        text::trimmed(tag) == lead + core + suffix,
        forall|i: int| 0 <= i < lead.len() ==> #[trigger] lead[i] == 'v' || lead[i] == 'V',
        core.len() > 0 ==> core[0] != 'v' && core[0] != 'V',
        forall|i: int| 0 <= i < core.len() ==> #[trigger] core[i] != '-' && core[i] != '+',
        suffix.len() > 0 ==> suffix[0] == '-' || suffix[0] == '+',
    ensures
        updater::core_part(updater::without_v(text::trimmed(tag))) == core,
{
    let rest = core + suffix;
    assert(lead + core + suffix =~= lead + rest);
    if rest.len() > 0 {
        if core.len() > 0 {
            assert(rest[0] == core[0]);
        } else {
            assert(rest[0] == suffix[0]);
        }
    }
    leading_letters_are_dropped(lead, rest);
    suffix_is_dropped(core, suffix);
}

/// The version of a tag is made of the numbers between its dots, behind any leading
/// letter and before any suffix. A second and a third number that are missing are 0.
pub proof fn tag_names_its_numbers(
    tag: Seq<char>,
    lead: Seq<char>,
    a: Seq<char>,
    b: Seq<char>,
    c: Seq<char>,
    suffix: Seq<char>,
)
    requires
        forall|i: int| 0 <= i < lead.len() ==> #[trigger] lead[i] == 'v' || lead[i] == 'V',
        plain(a) && plain(b) && plain(c),
        a.len() > 0 ==> a[0] != 'v' && a[0] != 'V',
        suffix.len() > 0 ==> suffix[0] == '-' || suffix[0] == '+',
    ensures
        text::trimmed(tag) == lead + a + suffix ==> updater::version_of(tag) == (match text::number_of(a) {
            Some(x) => Some((x, 0u64, 0u64)),
            None => None,
        }),
        text::trimmed(tag) == lead + (a + seq!['.'] + b) + suffix ==> updater::version_of(tag) == (match (
            text::number_of(a),
            text::number_of(b),
        ) {
            (Some(x), Some(y)) => Some((x, y, 0u64)),
            _ => None,
        }),
        text::trimmed(tag) == lead + (a + seq!['.'] + (b + seq!['.'] + c)) + suffix ==> updater::version_of(tag)
            == (match (text::number_of(a), text::number_of(b), text::number_of(c)) {
            (Some(x), Some(y), Some(z)) => Some((x, y, z)),
            _ => None,
        }),
{
    dots_part_the_pieces(a, Seq::empty());
    dots_part_the_pieces(b, Seq::empty());
    dots_part_the_pieces(c, Seq::empty());
    dots_part_the_pieces(a, b);
    let bc = b + seq!['.'] + c;
    dots_part_the_pieces(b, c);
    dots_part_the_pieces(a, bc);
    let (one, two, three) = (a, a + seq!['.'] + b, a + seq!['.'] + bc);
    if text::trimmed(tag) == lead + one + suffix {
        lemma_version(tag, lead, one, suffix);
        assert(updater::split_dots(one) == seq![a]);
    }
    if text::trimmed(tag) == lead + two + suffix {
        assert(two[0] == (if a.len() > 0 { a[0] } else { '.' }));
        assert forall|i: int| 0 <= i < two.len() implies #[trigger] two[i] != '-' && two[i] != '+' by {
            lemma_plain_joined(a, b, i);
        }
        lemma_version(tag, lead, two, suffix);
        assert(updater::split_dots(two) =~= seq![a, b]);
    }
    if text::trimmed(tag) == lead + three + suffix {
        assert(three[0] == (if a.len() > 0 { a[0] } else { '.' }));
        assert forall|i: int| 0 <= i < three.len() implies #[trigger] three[i] != '-' && three[i] != '+' by {
            if i < a.len() {
                assert(three[i] == a[i]);
            } else if i > a.len() {
                let k = i - a.len() - 1;
                assert(three[i] == bc[k]);
                lemma_plain_joined(b, c, k);
            }
        }
        lemma_version(tag, lead, three, suffix);
        assert(updater::split_dots(three) =~= seq![a, b, c]);
    }
}

proof fn lemma_plain_joined(a: Seq<char>, b: Seq<char>, i: int)
    requires
        plain(a),
        plain(b),
        0 <= i < a.len() + 1 + b.len(),
    ensures
        (a + seq!['.'] + b)[i] != '-' && (a + seq!['.'] + b)[i] != '+',
{
    let s = a + seq!['.'] + b;
    if i < a.len() {
        assert(s[i] == a[i]);
    } else if i > a.len() {
        assert(s[i] == b[i - a.len() - 1]);
    }
}

/// More than three pieces are no version.
pub proof fn fourth_piece_is_no_version(tag: Seq<char>)
    requires
        updater::split_dots(updater::core_part(updater::without_v(text::trimmed(tag)))).len() > 3,
    ensures
        updater::version_of(tag) is None,
{
}

/// Of two versions, the first number in which they differ decides.
pub proof fn first_difference_decides(candidate: Seq<char>, current: Seq<char>)
    requires
        updater::version_of(candidate) is Some,
        updater::version_of(current) is Some,
    ensures
        ({
            let (a, b) = (updater::version_of(candidate)->0, updater::version_of(current)->0);
            &&& a.0 > b.0 ==> updater::newer(candidate, current)
            &&& a.0 < b.0 ==> !updater::newer(candidate, current)
            &&& a.0 == b.0 && a.1 > b.1 ==> updater::newer(candidate, current)
            &&& a.0 == b.0 && a.1 < b.1 ==> !updater::newer(candidate, current)
            &&& a.0 == b.0 && a.1 == b.1 ==> (updater::newer(candidate, current) <==> a.2 > b.2)
        }),
{
}

/// Installers are known by how their names end, whatever they begin with.
pub proof fn installers_are_known_by_their_ends(stem: Seq<char>)
    ensures
        updater::installs_on(
            stem + "_x64-setup.exe"@,
            updater::platform_name("windows"@, "x86_64"@),
        ),
        updater::installs_on(stem + "_x64.dmg"@, updater::platform_name("macos"@, "x86_64"@)),
        updater::installs_on(stem + "_aarch64.dmg"@, updater::platform_name("macos"@, "aarch64"@)),
{
    reveal_strlit("windows");
    reveal_strlit("macos");
    reveal_strlit("x86_64");
    reveal_strlit("aarch64");
    reveal_strlit("win-x64");
    reveal_strlit("mac-x64");
    reveal_strlit("mac-aarch64");
    assert("windows"@.len() != "macos"@.len());
    assert("x86_64"@.len() != "aarch64"@.len());
    assert("win-x64"@[0] != "mac-x64"@[0]);
    assert("mac-x64"@.len() != "mac-aarch64"@.len());
    assert("win-x64"@.len() != "mac-aarch64"@.len());
    text_laws::ends_of_a_text_are_its_parts(stem + "_x64-setup.exe"@, "_x64-setup.exe"@);
    text_laws::ends_of_a_text_are_its_parts(stem + "_x64.dmg"@, "_x64.dmg"@);
    text_laws::ends_of_a_text_are_its_parts(stem + "_aarch64.dmg"@, "_aarch64.dmg"@);
}

/// Nothing is an installer for another system or processor.
pub proof fn other_platforms_have_no_installer(os: Seq<char>, arch: Seq<char>, name: Seq<char>)
    requires
        !(os == "windows"@ && arch == "x86_64"@),
        !(os == "macos"@ && arch == "x86_64"@),
        !(os == "macos"@ && arch == "aarch64"@),
    ensures
        !updater::installs_on(name, updater::platform_name(os, arch)),
{
    reveal_strlit("unsupported");
    reveal_strlit("win-x64");
    reveal_strlit("mac-x64");
    reveal_strlit("mac-aarch64");
    assert("unsupported"@[0] != "win-x64"@[0]);
    assert("unsupported"@[0] != "mac-x64"@[0]);
    assert("unsupported"@[0] != "mac-aarch64"@[0]);
}

/// Of the release files, the first installer for the platform is taken.
pub proof fn first_installer_is_taken(assets: Seq<JsonTree>, platform: Seq<char>, i: int)
    requires
        0 <= i < assets.len(),
        assets[i].text_field("name"@) matches Some(name) && updater::installs_on(name, platform),
        forall|j: int|
            0 <= j < i ==> ((#[trigger] assets[j]).text_field("name"@) matches Some(name)
                ==> !updater::installs_on(name, platform)),
    ensures
        updater::installer_in(assets, platform) == Some(assets[i]),
    decreases i,
{
    if i > 0 {
        let rest = assets.drop_first();
        assert(assets[0].text_field("name"@) matches Some(name) ==> !updater::installs_on(name, platform));
        assert forall|j: int| 0 <= j < i - 1 implies ((#[trigger] rest[j]).text_field("name"@) matches Some(name)
            ==> !updater::installs_on(name, platform)) by {
            assert(rest[j] == assets[j + 1]);
        }
        first_installer_is_taken(rest, platform, i - 1);
    }
}

/// A release without an installer for the platform is none.
pub proof fn release_needs_an_installer(doc: JsonTree, platform: Seq<char>, assets: Seq<JsonTree>)
    requires
        doc.field("assets"@) == Some(JsonTree::Array(assets)),
        forall|j: int|
            0 <= j < assets.len() ==> ((#[trigger] assets[j]).text_field("name"@) matches Some(name)
                ==> !updater::installs_on(name, platform)),
    ensures
        updater::release_in(doc, platform) is None,
{
    lemma_no_installer(assets, platform);
}

proof fn lemma_no_installer(assets: Seq<JsonTree>, platform: Seq<char>)
    requires
        forall|j: int|
            0 <= j < assets.len() ==> ((#[trigger] assets[j]).text_field("name"@) matches Some(name)
                ==> !updater::installs_on(name, platform)),
    ensures
        updater::installer_in(assets, platform) is None,
    decreases assets.len(),
{
    if assets.len() > 0 {
        let rest = assets.drop_first();
        assert(assets[0].text_field("name"@) matches Some(name) ==> !updater::installs_on(name, platform));
        assert forall|j: int| 0 <= j < rest.len() implies ((#[trigger] rest[j]).text_field("name"@) matches Some(
            name,
        ) ==> !updater::installs_on(name, platform)) by {
            assert(rest[j] == assets[j + 1]);
        }
        lemma_no_installer(rest, platform);
    }
}

/// A release tells its tag, its version, its page, its notes and its installer as the
/// document has them: the tag and the notes without white space around them, the
/// version as the tag without its leading letter.
pub proof fn release_tells_what_the_document_has(
    doc: JsonTree,
    platform: Seq<char>,
    assets: Seq<JsonTree>,
    i: int,
    lead: Seq<char>,
    version: Seq<char>,
)
    requires
        doc.field("assets"@) == Some(JsonTree::Array(assets)),
        0 <= i < assets.len(),
        assets[i].text_field("name"@) matches Some(name) && updater::installs_on(name, platform),
        forall|j: int|
            0 <= j < i ==> ((#[trigger] assets[j]).text_field("name"@) matches Some(name)
                ==> !updater::installs_on(name, platform)),
        doc.text_field("tag_name"@) matches Some(tag) && text::trimmed(tag) == lead + version,
        forall|k: int| 0 <= k < lead.len() ==> #[trigger] lead[k] == 'v' || lead[k] == 'V',
        version.len() > 0 ==> version[0] != 'v' && version[0] != 'V',
    ensures
        updater::release_in(doc, platform) is Some <==> doc.text_field("html_url"@) is Some && assets[i].text_field(
            "browser_download_url"@,
        ) is Some,
        updater::release_in(doc, platform) matches Some(r) ==> {
            &&& r.tag == lead + version
            &&& r.version == version
            &&& doc.text_field("html_url"@) == Some(r.url)
            &&& doc.text_field("body"@) matches Some(notes) ==> r.notes == text::trimmed(notes)
            &&& doc.text_field("body"@) is None ==> r.notes.len() == 0
            &&& assets[i].text_field("name"@) == Some(r.asset_name)
            &&& assets[i].text_field("browser_download_url"@) == Some(r.asset_url)
            &&& assets[i].number_field("size"@) matches Some(n) ==> r.asset_size == n
            &&& assets[i].number_field("size"@) is None ==> r.asset_size == 0
        },
{
    first_installer_is_taken(assets, platform, i);
    leading_letters_are_dropped(lead, version);
    text_laws::padding_is_trimmed(Seq::empty(), Seq::empty(), Seq::empty());
    assert(Seq::<char>::empty() + Seq::<char>::empty() + Seq::<char>::empty() =~= Seq::<char>::empty());
}

/// A download is as long as its response announces, or as the release tells where the
/// response announces nothing.
pub proof fn announced_length_counts(content_length: Seq<char>, asset_size: u64)
    ensures
        text::number_of(content_length) matches Some(n) ==> n > 0 ==> Download::expected(
            Some(content_length),
            asset_size,
        ) == n,
        text::number_of(content_length) is None || text::number_of(content_length) == Some(0u64)
            ==> Download::expected(Some(content_length), asset_size) == asset_size,
        Download::expected(None, asset_size) == asset_size,
{
}

} // verus!

use zcode_speed_panel::json;
use zcode_speed_panel::updater::{
    is_newer, latest_release, parse_version, pick_asset, platform, release_of, Download, DownloadError, REPO,
};

#[test]
fn version_parsing() {
    assert_eq!(parse_version("v0.3.1"), Some((0, 3, 1)));
    assert_eq!(parse_version("0.3.1"), Some((0, 3, 1)));
    assert_eq!(parse_version("V1.2.3"), Some((1, 2, 3)));
    assert_eq!(parse_version("v0.3.1-rc.1"), Some((0, 3, 1)));
    assert_eq!(parse_version("v0.3.1+build.2"), Some((0, 3, 1)));
    assert_eq!(parse_version("v10.0.0"), Some((10, 0, 0)));
    assert_eq!(parse_version("abc"), None);
    assert_eq!(parse_version("1.2.3.4"), None);
    assert_eq!(parse_version(""), None);
}

#[test]
fn version_ordering() {
    assert!(is_newer("v0.3.0", "0.2.1"));
    assert!(is_newer("v0.2.2", "v0.2.1"));
    assert!(is_newer("v1.0.0", "v0.99.99"));
    assert!(!is_newer("v0.2.1", "0.2.1"));
    assert!(!is_newer("v0.2.0", "v0.2.1"));
    assert!(!is_newer("garbage", "0.2.1"));
    assert!(!is_newer("0.2.1", "garbage"));
}

#[test]
fn asset_picking() {
    let assets = vec![
        "zcode-speed-panel_0.3.0_x64-setup.exe".to_string(),
        "zcode-speed-panel_0.3.0_x64-portable.exe".to_string(),
        "zcode-speed-panel_0.3.0_x64.dmg".to_string(),
        "zcode-speed-panel_0.3.0_aarch64.dmg".to_string(),
    ];
    assert_eq!(pick_asset(&assets, "win-x64"), Some(0));
    assert_eq!(pick_asset(&assets, "mac-x64"), Some(2));
    assert_eq!(pick_asset(&assets, "mac-aarch64"), Some(3));
    assert_eq!(pick_asset(&assets, "unsupported"), None);
    let only_arm = vec!["zcode-speed-panel_0.3.0_aarch64.dmg".to_string()];
    assert_eq!(pick_asset(&only_arm, "mac-x64"), None);
    assert_eq!(pick_asset(&only_arm, "mac-aarch64"), Some(0));
}

#[test]
fn version_edges() {
    assert_eq!(parse_version("  vV7 \n"), Some((7, 0, 0)));
    assert_eq!(parse_version("1.2"), Some((1, 2, 0)));
    assert_eq!(parse_version("1."), None);
    assert_eq!(parse_version(".1"), None);
    assert_eq!(parse_version("1..2"), None);
    assert_eq!(parse_version("v-1"), None);
    assert_eq!(parse_version("18446744073709551615.0.0"), Some((u64::MAX, 0, 0)));
    assert_eq!(parse_version("18446744073709551616.0.0"), None);
    assert_eq!(parse_version("1.2.x"), None);
}

#[test]
fn newer_is_an_order() {
    let tags = ["v0.1.0", "0.1.1", "v0.2", "1"];
    for (i, a) in tags.iter().enumerate() {
        for (j, b) in tags.iter().enumerate() {
            assert_eq!(is_newer(a, b), i > j, "{a} {b}");
        }
    }
}

#[test]
fn platform_names() {
    assert_eq!(platform("windows", "x86_64"), "win-x64");
    assert_eq!(platform("macos", "aarch64"), "mac-aarch64");
    assert_eq!(platform("macos", "x86_64"), "mac-x64");
    assert_eq!(platform("windows", "aarch64"), "unsupported");
    assert_eq!(platform("linux", "x86_64"), "unsupported");
    assert_eq!(REPO, "Masterchiefm/zcode-speed-panel");
}

const LATEST: &str = r#"{
    "tag_name": " v0.4.0 ",
    "html_url": "https://example.org/releases/v0.4.0",
    "body": "  notes\n",
    "assets": [
        {"size": 1},
        {"name": 5},
        {"name": "panel_0.4.0_x64-portable.exe", "browser_download_url": "p", "size": 10},
        {"name": "panel_0.4.0_x64-setup.exe", "browser_download_url": "w", "size": 123456},
        {"name": "panel_0.4.0_x64.dmg", "browser_download_url": "x", "size": -1},
        {"name": "panel_0.4.0_aarch64.dmg", "size": 7}
    ]
}"#;

#[test]
fn release_for_a_platform() {
    let r = latest_release(LATEST, "win-x64").unwrap();
    assert_eq!(r.tag, "v0.4.0");
    assert_eq!(r.version, "0.4.0");
    assert_eq!(r.url, "https://example.org/releases/v0.4.0");
    assert_eq!(r.notes, "notes");
    assert_eq!(r.asset_name, "panel_0.4.0_x64-setup.exe");
    assert_eq!(r.asset_url, "w");
    assert_eq!(r.asset_size, 123456);
    // A size that is no plain number counts as unknown.
    let r = latest_release(LATEST, "mac-x64").unwrap();
    assert_eq!((r.asset_url.as_str(), r.asset_size), ("x", 0));
    // No link to download from.
    assert!(latest_release(LATEST, "mac-aarch64").is_none());
    assert!(latest_release(LATEST, "unsupported").is_none());
}

#[test]
fn what_is_no_release() {
    assert!(latest_release("", "win-x64").is_none());
    assert!(latest_release("[]", "win-x64").is_none());
    assert!(latest_release(r#"{"html_url": "u", "assets": []}"#, "win-x64").is_none());
    assert!(latest_release(r#"{"tag_name": "v1", "assets": []}"#, "win-x64").is_none());
    assert!(latest_release(r#"{"tag_name": "v1", "html_url": "u"}"#, "win-x64").is_none());
    assert!(latest_release(r#"{"tag_name": "v1", "html_url": "u", "assets": {}}"#, "win-x64").is_none());
    let bare = r#"{"tag_name": "v1", "html_url": "u", "assets":
        [{"name": "a_x64-setup.exe", "browser_download_url": "d"}]}"#;
    let doc = json::parse(bare).unwrap();
    let r = release_of(&doc, "win-x64").unwrap();
    assert_eq!(r.notes, "");
    assert_eq!(r.asset_size, 0);
}

#[test]
fn download_lengths() {
    assert_eq!(Download::begin(Some("100"), 7).total, 100);
    assert_eq!(Download::begin(Some("0"), 7).total, 7);
    assert_eq!(Download::begin(Some("x"), 7).total, 7);
    assert_eq!(Download::begin(None, 7).total, 7);
}

#[test]
fn download_ends() {
    let mut d = Download::begin(Some("100"), 0);
    assert_eq!(d.finish(), Err(DownloadError::Empty));
    d.advance(60);
    assert_eq!(d.finish(), Err(DownloadError::Incomplete { written: 60, total: 100 }));
    d.advance(40);
    assert_eq!(d.finish(), Ok(()));
    d.advance(1);
    assert_eq!(d.finish(), Err(DownloadError::Incomplete { written: 101, total: 100 }));
    // Where nobody tells how much there is, anything will do.
    let mut d = Download::begin(None, 0);
    d.advance(1);
    assert_eq!(d.finish(), Ok(()));
}

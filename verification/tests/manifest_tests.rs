use ext_host::manifest::{
    CommandManifest, ContributesManifest, ExtensionManifest, LicenseManifest, ManifestError,
    ManifestViolation,
};
use ext_host::codec::{deserialize, serialize};

fn command(id: &str, title: &str) -> CommandManifest {
    CommandManifest {
        command: id.to_string(),
        title: title.to_string(),
        subtitle: None,
        description: "does something useful".to_string(),
        icon: None,
        disabled_by_default: None,
    }
}

fn contributes(commands: Option<Vec<CommandManifest>>) -> ContributesManifest {
    ContributesManifest {
        commands,
        command_palettes: None,
        icons: None,
        icon_themes: None,
        keybindings: None,
        preferences: None,
        themes: None,
        views: None,
    }
}

fn valid_manifest() -> ExtensionManifest {
    ExtensionManifest {
        name: "clipboard-history".to_string(),
        title: "Clipboard History".to_string(),
        version: "1.2.3".to_string(),
        publisher: "acme1".to_string(),
        license: "MIT".to_string(),
        description: "keeps the last few clipboard entries".to_string(),
        icon: "assets/icon.png".to_string(),
        contributes: contributes(Some(vec![command("copy-last", "Copy Last")])),
    }
}

#[test]
fn round_trip_valid_manifest() {
    let m = valid_manifest();
    let doc = serialize(&m);
    let back = deserialize(doc.as_str()).expect("canonical document parses");
    assert_eq!(back, m);
    assert_eq!(serialize(&back), doc);
}

#[test]
fn round_trip_full_manifest() {
    let mut m = valid_manifest();
    m.contributes = ContributesManifest {
        commands: Some(vec![
            CommandManifest {
                command: "a-b".to_string(),
                title: "Ab".to_string(),
                subtitle: Some("sub \"title\"".to_string()),
                description: "with \\ and \" inside".to_string(),
                icon: Some("cmd.svg".to_string()),
                disabled_by_default: Some(true),
            },
            command("second", "Second"),
        ]),
        command_palettes: Some(vec![]),
        icons: Some(vec![
            ext_host::manifest::IconsManifest {},
            ext_host::manifest::IconsManifest {},
        ]),
        icon_themes: None,
        keybindings: Some(vec![ext_host::manifest::KeybindingManifest {}]),
        preferences: None,
        themes: Some(vec![ext_host::manifest::ThemesManifest {}]),
        views: None,
    };
    let doc = serialize(&m);
    let back = deserialize(doc.as_str()).expect("canonical document parses");
    assert_eq!(back, m);
    assert_eq!(serialize(&back), doc);
}

#[test]
fn serialize_exact_document() {
    let m = ExtensionManifest {
        name: "abc".to_string(),
        title: "Ab".to_string(),
        version: "0.1.0".to_string(),
        publisher: "pub1".to_string(),
        license: "ISC".to_string(),
        description: "twelve chars!".to_string(),
        icon: "i.svg".to_string(),
        contributes: contributes(None),
    };
    let doc = serialize(&m);
    assert_eq!(
        doc,
        "{\"name\":\"abc\",\"title\":\"Ab\",\"version\":\"0.1.0\",\"publisher\":\"pub1\",\
         \"license\":\"ISC\",\"description\":\"twelve chars!\",\"icon\":\"i.svg\",\
         \"contributes\":{\"commands\":null,\"commandPalettes\":null,\"icons\":null,\
         \"iconThemes\":null,\"keybindings\":null,\"preferences\":null,\"themes\":null,\
         \"views\":null}}"
    );
}

#[test]
fn deserialize_rejects_garbage() {
    assert!(matches!(deserialize("not json"), Err(ManifestError::Malformed)));
    assert!(matches!(deserialize(""), Err(ManifestError::Malformed)));
    assert!(matches!(deserialize("{\"name\":"), Err(ManifestError::Malformed)));
    // trailing text after the document is refused; trailing whitespace is fine
    let mut doc = serialize(&valid_manifest());
    doc.push(' ');
    assert_eq!(deserialize(doc.as_str()), Ok(valid_manifest()));
    doc.push('x');
    assert!(matches!(deserialize(doc.as_str()), Err(ManifestError::Malformed)));
}

#[test]
fn deserialize_accepts_ordinary_json() {
    // pretty-printed, fields reordered, optional fields absent,
    // unknown fields present at top level and inside entries
    let doc = r#"
    {
        "title": "Clipboard History",
        "name": "clipboard-history",
        "publisher": "acme1",
        "homepage": "https://example.invalid/ignored",
        "version": "1.2.3",
        "license": "MIT",
        "description": "keeps the last few clipboard entries",
        "icon": "assets/icon.png",
        "contributes": {
            "commands": [
                {
                    "command": "copy-last",
                    "extra": [1, 2.5e3, {"nested": true}, "deep"],
                    "title": "Copy Last",
                    "description": "does something useful"
                }
            ]
        }
    }
    "#;
    let m = deserialize(doc).expect("ordinary JSON parses");
    assert_eq!(m, valid_manifest());
    let loaded = ExtensionManifest::load(doc).expect("valid manifest loads");
    assert_eq!(loaded, valid_manifest());
}

#[test]
fn load_rejects_bad_name_in_ordinary_json() {
    // a plainly written document whose name breaks the slug rule
    let doc = r#"{"name":"Bad_Name","title":"Tool","version":"1.0.0","publisher":"acme1","license":"MIT","description":"a dozen chars","icon":"i.png","contributes":{}}"#;
    match ExtensionManifest::load(doc) {
        Err(ManifestError::Invalid(vs)) => {
            assert_eq!(vs, vec![ManifestViolation::NameInvalid]);
        }
        other => panic!("expected ManifestInvalid, got {:?}", other),
    }
}

#[test]
fn reader_handles_escapes_and_nulls() {
    let doc = r#"{
        "name": "esc-ext",
        "title": "Line\nBreak \"quoted\" \\ slash\/",
        "version": "1.0.0",
        "publisher": "acme1",
        "license": "ISC",
        "description": "tab\there and more text",
        "icon": "i.svg",
        "contributes": {
            "commands": null,
            "icons": [ {}, { "ignored": 1 } ],
            "views": []
        }
    }"#;
    let m = deserialize(doc).expect("document parses");
    assert_eq!(m.title, "Line\nBreak \"quoted\" \\ slash/");
    assert_eq!(m.description, "tab\there and more text");
    assert!(m.contributes.commands.is_none());
    assert_eq!(m.contributes.icons.as_ref().map(|v| v.len()), Some(2));
    assert_eq!(m.contributes.views.as_ref().map(|v| v.len()), Some(0));
    assert!(m.contributes.themes.is_none());
}

#[test]
fn reader_requires_declared_fields() {
    // a manifest without its contributes section is not a manifest
    let doc = r#"{"name":"abc","title":"Ab","version":"0.1.0","publisher":"pub1","license":"ISC","description":"twelve chars!","icon":"i.svg"}"#;
    assert!(matches!(deserialize(doc), Err(ManifestError::Malformed)));
}

#[test]
fn reader_keeps_last_duplicate_key() {
    let doc = r#"{"name":"first-name","name":"clipboard-history","title":"Clipboard History","version":"1.2.3","publisher":"acme1","license":"MIT","description":"keeps the last few clipboard entries","icon":"assets/icon.png","contributes":{"commands":[{"command":"copy-last","title":"Copy Last","description":"does something useful"}]}}"#;
    let m = deserialize(doc).expect("document parses");
    assert_eq!(m, valid_manifest());
}

#[test]
fn load_accepts_valid_manifest() {
    let doc = serialize(&valid_manifest());
    let m = ExtensionManifest::load(doc.as_str()).expect("valid manifest loads");
    assert_eq!(m.name, "clipboard-history");
}

#[test]
fn load_rejects_bad_name_with_name_violation() {
    let mut m = valid_manifest();
    m.name = "Bad_Name".to_string();
    let doc = serialize(&m);
    match ExtensionManifest::load(doc.as_str()) {
        Err(ManifestError::Invalid(vs)) => {
            assert!(vs.contains(&ManifestViolation::NameInvalid));
        }
        other => panic!("expected ManifestInvalid, got {:?}", other),
    }
}

#[test]
fn load_reports_all_violations_batched() {
    let mut m = valid_manifest();
    m.name = "x".to_string();
    m.publisher = "UPPER".to_string();
    m.license = "WTFPL".to_string();
    m.version = "01.2.3".to_string();
    m.description = "short".to_string();
    m.icon = "icon.bmp".to_string();
    m.title = "t".to_string();
    let doc = serialize(&m);
    match ExtensionManifest::load(doc.as_str()) {
        Err(ManifestError::Invalid(vs)) => {
            assert_eq!(
                vs,
                vec![
                    ManifestViolation::NameInvalid,
                    ManifestViolation::TitleInvalid,
                    ManifestViolation::VersionInvalid,
                    ManifestViolation::PublisherInvalid,
                    ManifestViolation::LicenseInvalid,
                    ManifestViolation::DescriptionInvalid,
                    ManifestViolation::IconInvalid,
                ]
            );
        }
        other => panic!("expected ManifestInvalid, got {:?}", other),
    }
}

#[test]
fn duplicate_command_ids_are_reported() {
    let mut m = valid_manifest();
    m.contributes = contributes(Some(vec![
        command("foo", "First"),
        command("foo", "Second"),
    ]));
    let doc = serialize(&m);
    match ExtensionManifest::load(doc.as_str()) {
        Err(ManifestError::Invalid(vs)) => {
            assert_eq!(vs, vec![ManifestViolation::DuplicateCommandId(1)]);
        }
        other => panic!("expected ManifestInvalid, got {:?}", other),
    }
}

#[test]
fn command_field_rules() {
    let mut m = valid_manifest();
    m.contributes = contributes(Some(vec![CommandManifest {
        command: "x".to_string(), // too short
        title: "Fine Title".to_string(),
        subtitle: None,
        description: "long enough description".to_string(),
        icon: None,
        disabled_by_default: None,
    }]));
    let doc = serialize(&m);
    match ExtensionManifest::load(doc.as_str()) {
        Err(ManifestError::Invalid(vs)) => {
            assert_eq!(vs, vec![ManifestViolation::CommandInvalid(0)]);
        }
        other => panic!("expected ManifestInvalid, got {:?}", other),
    }
}

#[test]
fn field_checks_direct() {
    assert!(ext_host::manifest::check_name("abc"));
    assert!(ext_host::manifest::check_name("a-1-b"));
    assert!(!ext_host::manifest::check_name("ab"));
    assert!(!ext_host::manifest::check_name("-abc"));
    assert!(!ext_host::manifest::check_name("abc-"));
    assert!(!ext_host::manifest::check_name("aBc"));

    assert!(ext_host::manifest::check_version("1.2.3"));
    assert!(ext_host::manifest::check_version("0.0.0"));
    assert!(ext_host::manifest::check_version("10.20.30"));
    assert!(!ext_host::manifest::check_version("1.2"));
    assert!(!ext_host::manifest::check_version("01.2.3"));
    assert!(!ext_host::manifest::check_version("1.2.3.4"));
    assert!(!ext_host::manifest::check_version("1.2.x"));
    assert!(!ext_host::manifest::check_version(""));
    // pre-release and build metadata
    assert!(ext_host::manifest::check_version("1.0.0-alpha"));
    assert!(ext_host::manifest::check_version("1.0.0-alpha.1"));
    assert!(ext_host::manifest::check_version("1.0.0-0.3.7"));
    assert!(ext_host::manifest::check_version("1.0.0-x-y-z.4"));
    assert!(ext_host::manifest::check_version("1.0.0+20130313144700"));
    assert!(ext_host::manifest::check_version("1.0.0-beta+exp.sha.5114f85"));
    assert!(ext_host::manifest::check_version("1.0.0+001"));
    assert!(!ext_host::manifest::check_version("1.0.0-"));
    assert!(!ext_host::manifest::check_version("1.0.0+"));
    assert!(!ext_host::manifest::check_version("1.0.0-01"));
    assert!(!ext_host::manifest::check_version("1.0.0-alpha..1"));
    assert!(!ext_host::manifest::check_version("1.0.0-alpha_beta"));
    assert!(!ext_host::manifest::check_version("1.0.0-+build"));

    assert!(ext_host::manifest::check_icon("a.png"));
    assert!(ext_host::manifest::check_icon("dir/b.svg"));
    assert!(ext_host::manifest::check_icon("c.jpg"));
    assert!(!ext_host::manifest::check_icon("c.bmp"));
    assert!(!ext_host::manifest::check_icon("png"));

    assert!(ext_host::manifest::check_command_id("ab"));
    assert!(ext_host::manifest::check_command_id("~open.Thing_2"));
    assert!(!ext_host::manifest::check_command_id("a"));
    assert!(!ext_host::manifest::check_command_id("Ab"));

    assert_eq!(
        ext_host::manifest::license_of("MIT"),
        Some(LicenseManifest::Mit)
    );
    assert_eq!(
        ext_host::manifest::license_of("Apache-2.0"),
        Some(LicenseManifest::Apache2_0)
    );
    assert_eq!(ext_host::manifest::license_of("WTFPL"), None);
}

#[test]
fn validate_of_valid_manifest_is_empty() {
    let m = valid_manifest();
    assert_eq!(ext_host::manifest::validate(&m), vec![]);
}

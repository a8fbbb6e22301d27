use hookplayer::category::{category_to_event, CategoryRule, CategoryTable, Event};
use hookplayer::error::HookError;
use hookplayer::events::{build_event_map, EventMap, FetchedPack, ManifestCategory, PackManifest};
use hookplayer::install::sound_files;
use hookplayer::paths::{basename, trim_slashes};
use hookplayer::registry::{manifest_url, pack_base_url, resolve_pack, resolve_packs, sound_url, RegistryPack};

fn pack(name: &str, repo: &str, r: &str, path: &str) -> RegistryPack {
    RegistryPack {
        name: name.to_string(),
        display_name: format!("{} display", name),
        source_repo: repo.to_string(),
        source_ref: r.to_string(),
        source_path: path.to_string(),
    }
}

fn manifest(cats: Vec<(&str, Vec<&str>)>) -> PackManifest {
    PackManifest {
        categories: cats
            .into_iter()
            .map(|(id, files)| ManifestCategory {
                id: id.to_string(),
                files: files.into_iter().map(|f| f.to_string()).collect(),
            })
            .collect(),
    }
}

fn lookup(m: &EventMap, key: &str) -> Option<Vec<String>> {
    m.entries.iter().rev().find(|e| e.event == key).map(|e| e.sounds.clone())
}

#[test]
fn category_to_event_maps_the_table() {
    assert_eq!(category_to_event("session.start"), Some("start"));
    assert_eq!(category_to_event("task.complete"), Some("stop"));
    assert_eq!(category_to_event("task.acknowledge"), Some("notify"));
    assert_eq!(category_to_event("input.required"), Some("permission"));
    assert_eq!(category_to_event("resource.limit"), Some("permission"));
    assert_eq!(category_to_event("task.error"), Some("error"));
    assert_eq!(category_to_event("user.spam"), Some("unknown"));
}

#[test]
fn category_to_event_outside_the_table_is_none() {
    assert_eq!(category_to_event(""), None);
    assert_eq!(category_to_event("Session.Start"), None);
    assert_eq!(category_to_event("session.start "), None);
    assert_eq!(category_to_event("something.else"), None);
}

#[test]
fn custom_table_translates_new_taxonomy() {
    let table = CategoryTable {
        rules: vec![CategoryRule { category: "build.done".to_string(), event: Event::Stop }],
    };
    assert_eq!(table.translate("build.done"), Some(Event::Stop));
    assert_eq!(table.translate("task.complete"), None);
    assert_eq!(Event::Stop.name(), "stop");
}

#[test]
fn basename_ignores_directory_depth() {
    assert_eq!(basename("sounds/sub/dir/click.mp3"), Some("click.mp3".to_string()));
    assert_eq!(basename("click.mp3"), Some("click.mp3".to_string()));
}

#[test]
fn basename_edge_cases() {
    assert_eq!(basename("dir/click.mp3/"), Some("click.mp3".to_string()));
    assert_eq!(basename("dir/click.mp3/."), Some("click.mp3".to_string()));
    assert_eq!(basename("dir/.."), None);
    assert_eq!(basename(""), None);
    assert_eq!(basename("/"), None);
    assert_eq!(basename("."), None);
}

#[test]
fn trim_slashes_removes_both_ends() {
    assert_eq!(trim_slashes("//a/b//"), "a/b");
    assert_eq!(trim_slashes("///"), "");
}

#[test]
fn base_url_with_subpath() {
    let p = pack("peon", "someone/packs", "main", "/packs/peon/");
    assert_eq!(pack_base_url(&p), "https://raw.githubusercontent.com/someone/packs/main/packs/peon");
}

#[test]
fn base_url_without_subpath() {
    let p = pack("peon", "someone/packs", "v1", "");
    assert_eq!(pack_base_url(&p), "https://raw.githubusercontent.com/someone/packs/v1");
    let q = pack("peon", "someone/packs", "v1", "./");
    assert_eq!(pack_base_url(&q), "https://raw.githubusercontent.com/someone/packs/v1");
    let r = pack("peon", "someone/packs", "v1", "/");
    assert_eq!(pack_base_url(&r), "https://raw.githubusercontent.com/someone/packs/v1");
}

#[test]
fn content_urls() {
    assert_eq!(manifest_url("https://h/x"), "https://h/x/openpeon.json");
    assert_eq!(sound_url("https://h/x", "click.mp3"), "https://h/x/sounds/click.mp3");
}

#[test]
fn resolve_pack_finds_exact_name() {
    let packs = vec![pack("alpha", "r", "m", ""), pack("beta", "r", "m", "")];
    assert_eq!(resolve_pack(&packs, "beta").unwrap(), 1);
}

#[test]
fn resolve_pack_missing_is_not_found() {
    let packs = vec![pack("alpha", "r", "m", "")];
    match resolve_pack(&packs, "Alpha") {
        Err(HookError::NotFound(n)) => assert_eq!(n, "Alpha"),
        _ => panic!("expected not found"),
    }
}

#[test]
fn resolve_packs_is_all_or_nothing() {
    let packs = vec![pack("alpha", "r", "m", ""), pack("beta", "r", "m", "")];
    let names = vec!["beta".to_string(), "alpha".to_string()];
    assert_eq!(resolve_packs(&packs, &names).unwrap(), vec![1, 0]);
    let names = vec!["alpha".to_string(), "gamma".to_string(), "delta".to_string()];
    match resolve_packs(&packs, &names) {
        Err(HookError::NotFound(n)) => assert_eq!(n, "gamma"),
        _ => panic!("expected not found"),
    }
}

#[test]
fn build_concatenates_packs_in_order() {
    let packs = vec![
        FetchedPack { name: "packA".to_string(), manifest: manifest(vec![("task.complete", vec!["x/hello.mp3"])]) },
        FetchedPack { name: "packB".to_string(), manifest: manifest(vec![("task.complete", vec!["y/world.mp3"])]) },
    ];
    let m = build_event_map(&CategoryTable::standard(), &packs);
    assert_eq!(
        lookup(&m, "stop"),
        Some(vec!["packA/hello.mp3".to_string(), "packB/world.mp3".to_string()])
    );
    assert_eq!(m.entries.len(), 1);
}

#[test]
fn build_keeps_manifest_order_and_drops_unknown_categories() {
    let packs = vec![FetchedPack {
        name: "p".to_string(),
        manifest: manifest(vec![
            ("input.required", vec!["a/one.wav", "two.wav"]),
            ("mystery", vec!["three.wav"]),
            ("resource.limit", vec!["four.wav", "a/one.wav"]),
            ("session.start", vec![]),
        ]),
    }];
    let m = build_event_map(&CategoryTable::standard(), &packs);
    assert_eq!(
        lookup(&m, "permission"),
        Some(vec![
            "p/one.wav".to_string(),
            "p/two.wav".to_string(),
            "p/four.wav".to_string(),
            "p/one.wav".to_string()
        ])
    );
    assert_eq!(lookup(&m, "start"), Some(vec![]));
    assert_eq!(lookup(&m, "stop"), None);
    assert_eq!(m.entries.len(), 2);
}

#[test]
fn sound_files_deduplicates_basenames() {
    let m = manifest(vec![
        ("task.complete", vec!["sounds/click.mp3", "a.mp3"]),
        ("task.error", vec!["other/dir/click.mp3"]),
    ]);
    let files = sound_files(&m);
    assert_eq!(files.iter().filter(|f| f.as_str() == "click.mp3").count(), 1);
    assert_eq!(files.len(), 2);
    assert!(files.contains(&"a.mp3".to_string()));
}

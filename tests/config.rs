use hookplayer::config::{expand_tilde, join_path, resolve_sounds_dir};
use hookplayer::events::{EventEntry, EventMap};

fn make_events(entries: Vec<(&str, Vec<&str>)>) -> EventMap {
    EventMap {
        entries: entries
            .into_iter()
            .map(|(e, s)| EventEntry {
                event: e.to_string(),
                sounds: s.into_iter().map(|x| x.to_string()).collect(),
            })
            .collect(),
    }
}

#[test]
fn expand_tilde_replaces_home() {
    let home = "/home/someone";
    let result = expand_tilde("~/sounds", Some(home));
    assert_eq!(result, "/home/someone/sounds");
}

#[test]
fn expand_tilde_leaves_absolute_path_unchanged() {
    let result = expand_tilde("/absolute/path", Some("/home/someone"));
    assert_eq!(result, "/absolute/path");
}

#[test]
fn expand_tilde_leaves_relative_path_unchanged() {
    let result = expand_tilde("relative/path", Some("/home/someone"));
    assert_eq!(result, "relative/path");
}

#[test]
fn expand_tilde_without_home_leaves_path() {
    assert_eq!(expand_tilde("~/sounds", None), "~/sounds");
}

#[test]
fn sounds_dir_abs_uses_env_var_override() {
    let result = resolve_sounds_dir(Some("/override/sounds"), "~/default/sounds", Some("/home/x"));
    assert_eq!(result, "/override/sounds");
}

#[test]
fn sounds_dir_abs_falls_back_to_config() {
    let result = resolve_sounds_dir(None, "~/mysounds", Some("/home/x"));
    assert_eq!(result, "/home/x/mysounds");
}

#[test]
fn join_path_follows_path_join() {
    assert_eq!(join_path("/sounds", "pack/a.mp3"), "/sounds/pack/a.mp3");
    assert_eq!(join_path("/sounds/", "pack/a.mp3"), "/sounds/pack/a.mp3");
    assert_eq!(join_path("/sounds", "/abs/a.mp3"), "/abs/a.mp3");
    assert_eq!(join_path("", "a.mp3"), "a.mp3");
}

#[test]
fn sounds_for_event_returns_configured_sounds() {
    let cfg = make_events(vec![("start", vec!["pack/hello.mp3"])]);
    let paths = cfg.sounds_for_event("/sounds", "start");
    assert_eq!(paths, vec!["/sounds/pack/hello.mp3".to_string()]);
}

#[test]
fn sounds_for_event_falls_back_to_unknown() {
    let cfg = make_events(vec![("unknown", vec!["pack/default.mp3"])]);
    let paths = cfg.sounds_for_event("/sounds", "unrecognized_event");
    assert_eq!(paths, vec!["/sounds/pack/default.mp3".to_string()]);
}

#[test]
fn sounds_for_event_returns_empty_when_no_match_and_no_unknown() {
    let cfg = make_events(vec![]);
    let paths = cfg.sounds_for_event("/sounds", "start");
    assert!(paths.is_empty());
}

#[test]
fn sounds_for_event_returns_multiple_sounds() {
    let cfg = make_events(vec![("notify", vec!["pack/a.mp3", "pack/b.mp3"])]);
    let paths = cfg.sounds_for_event("/sounds", "notify");
    assert_eq!(paths.len(), 2);
}

#[test]
fn sounds_for_event_present_but_empty_entry_does_not_fall_back() {
    let cfg = make_events(vec![("stop", vec![]), ("unknown", vec!["pack/default.mp3"])]);
    assert!(cfg.sounds_for_event("/sounds", "stop").is_empty());
}

#[test]
fn rewrite_sounds_dir_replaces_setting_line() {
    let raw = "volume = 0.5\nsounds_dir = \"~/old\"\n[events]\n";
    let out = hookplayer::config_file::rewrite_sounds_dir(raw, "~/new");
    assert_eq!(out, "volume = 0.5\nsounds_dir = \"~/new\"\n[events]\n");
}

#[test]
fn rewrite_sounds_dir_escapes_quotes_and_keeps_missing_final_newline() {
    let raw = "sounds_dir = \"x\"\r\nvolume = 1.0";
    let out = hookplayer::config_file::rewrite_sounds_dir(raw, "a\"b");
    assert_eq!(out, "sounds_dir = \"a\\\"b\"\nvolume = 1.0");
}

#[test]
fn rewrite_sounds_dir_empty_text() {
    assert_eq!(hookplayer::config_file::rewrite_sounds_dir("", "/x"), "");
    assert_eq!(hookplayer::config_file::rewrite_sounds_dir("\n\n", "/x"), "\n\n");
}

#[test]
fn sound_to_play_picks_a_configured_sound() {
    let cfg = make_events(vec![("notify", vec!["pack/a.mp3", "pack/b.mp3"])]);
    for _ in 0..20 {
        let p = cfg.sound_to_play("/sounds", "notify").unwrap();
        assert!(p == "/sounds/pack/a.mp3" || p == "/sounds/pack/b.mp3");
    }
    let one = make_events(vec![("unknown", vec!["pack/only.mp3"])]);
    assert_eq!(one.sound_to_play("/s", "start"), Some("/s/pack/only.mp3".to_string()));
}

#[test]
fn sound_to_play_none_without_sounds() {
    let cfg = make_events(vec![("start", vec![])]);
    assert_eq!(cfg.sound_to_play("/sounds", "start"), None);
    assert_eq!(make_events(vec![]).sound_to_play("/sounds", "stop"), None);
}

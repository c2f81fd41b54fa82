use pi_speak::config::{
    choose_socket, find_models_dir, models_dir_candidates, next_library,
    runtime_library_candidates, Config,
    KnownRoots, Location, Root, DEFAULT_SPEED_BITS,
};

fn known(all: bool) -> KnownRoots {
    KnownRoots {
        given: all,
        executable_dir: all,
        data_home: all,
        home: all,
    }
}

fn settings(voice: Option<&str>, speed: Option<f32>) -> Config {
    Config::from_environment(
        choose_socket(false, true),
        Location {
            root: Root::WorkingDir,
            path: "models".to_string(),
        },
        voice.map(|v| v.to_string()),
        speed.map(f32::to_bits),
    )
}

#[test]
fn the_first_models_directory_is_taken() {
    let candidates = models_dir_candidates(&known(true));
    let paths: Vec<&str> = candidates.iter().map(|c| c.location.path.as_str()).collect();
    assert_eq!(
        paths,
        vec![
            "",
            "models",
            "models",
            "../models",
            "../../models",
            "pi-speak/models",
            ".local/share/pi-speak/models",
            "/usr/local/share/pi-speak/models",
            "/usr/share/pi-speak/models"
        ]
    );
    assert_eq!(candidates[1].probe, "models/kokoro");
    let mut exists = vec![false; candidates.len()];
    exists[3] = true;
    exists[6] = true;
    let found = find_models_dir(&candidates, &exists);
    assert_eq!((found.root, found.path.as_str()), (Root::ExecutableDir, "../models"));
}

#[test]
fn without_a_models_directory_there_is_a_default() {
    let candidates = models_dir_candidates(&known(false));
    assert_eq!(candidates.len(), 3);
    let found = find_models_dir(&candidates, &vec![false; 3]);
    assert_eq!((found.root, found.path.as_str()), (Root::WorkingDir, "models"));
}

#[test]
fn libraries_are_looked_for_in_order() {
    let all = runtime_library_candidates(&known(true));
    assert_eq!(all.len(), 14);
    assert_eq!(all[0].location.root, Root::Given);
    assert_eq!(all[1].location.path, "libonnxruntime.so");
    assert_eq!(all[13].location.path, "/usr/local/lib/libonnxruntime.dylib");
    assert_eq!(runtime_library_candidates(&known(false)).len(), 8);
}

#[test]
fn libraries_that_exist_are_tried_in_turn() {
    let exists = vec![false, true, false, true];
    assert_eq!(next_library(&exists, 0), Some(1));
    assert_eq!(next_library(&exists, 2), Some(3));
    assert_eq!(next_library(&exists, 4), None);
    assert_eq!(next_library(&vec![false; 3], 0), None);
}

#[test]
fn the_socket_has_its_place() {
    let at = |l: Location| (l.root, l.path);
    assert_eq!(at(choose_socket(true, true)), (Root::Given, String::new()));
    assert_eq!(at(choose_socket(true, false)), (Root::Given, String::new()));
    assert_eq!(
        at(choose_socket(false, true)),
        (Root::RuntimeDir, "pi-speak.sock".to_string())
    );
    assert_eq!(
        at(choose_socket(false, false)),
        (Root::FileSystem, "/tmp/pi-speak.sock".to_string())
    );
}

#[test]
fn settings_have_defaults() {
    assert_eq!(DEFAULT_SPEED_BITS, 1.15f32.to_bits());
    let config = settings(None, None);
    assert_eq!(config.kokoro_voice, "jarvis");
    assert_eq!(f32::from_bits(config.kokoro_speed), 1.15);
    assert_eq!(config.target_sample_rate, 48000);
    assert!(config.summarize_code_blocks);
    assert_eq!(config.sustained_words, 30);
    assert_eq!(config.kokoro_model, "kokoro/kokoro-v1.0.onnx");
    assert_eq!(config.kokoro_voices, "kokoro/voices-v1.0.bin");
}

#[test]
fn the_command_line_comes_before_the_environment() {
    let mut config = settings(Some("af_heart"), Some(0.9));
    assert_eq!(config.kokoro_voice, "af_heart");
    config.override_with(Some(44100), None, Some(2.0f32.to_bits()));
    assert_eq!(config.target_sample_rate, 44100);
    assert_eq!(config.kokoro_voice, "af_heart");
    assert_eq!(f32::from_bits(config.kokoro_speed), 2.0);
    config.override_with(None, Some("bf_emma".to_string()), None);
    assert_eq!(config.kokoro_voice, "bf_emma");
    assert_eq!(config.target_sample_rate, 44100);
}

use rust_stubs::main_app::{parse_i32, run_app_main, str_eq, AppConfig};

#[test]
fn test_app_config_args() {
    let args = vec![
        "Minecraft.Client".to_string(),
        "--width".to_string(),
        "1280".to_string(),
        "--height".to_string(),
        "720".to_string(),
        "--fullscreen".to_string(),
    ];
    let cfg = AppConfig::parse_args(&args);
    assert_eq!(cfg.width, 1280);
    assert_eq!(cfg.height, 720);
    assert!(cfg.fullscreen);
}

#[test]
fn parse_args_defaults_and_bad_values() {
    let cfg = AppConfig::parse_args(&["prog".to_string()]);
    assert_eq!(cfg, AppConfig { width: 0, height: 0, fullscreen: false });
    let args = vec![
        "prog".to_string(),
        "--width".to_string(),
        "wide".to_string(),
        "--height".to_string(),
    ];
    let cfg = AppConfig::parse_args(&args);
    assert_eq!(cfg.width, 0);
    assert_eq!(cfg.height, 0);
    assert!(!cfg.fullscreen);
    // The program's own name is never read as an option.
    let cfg = AppConfig::parse_args(&["--fullscreen".to_string()]);
    assert!(!cfg.fullscreen);
}

#[test]
fn parse_i32_matches_from_str() {
    for s in ["0", "42", "-7", "+19", "2147483647", "-2147483648", "2147483648", "-2147483649", "", "-", "+", "1a", " 1", "99999999999"] {
        assert_eq!(parse_i32(s), s.parse::<i32>().ok(), "input {:?}", s);
    }
}

#[test]
fn str_eq_compares_characters() {
    assert!(str_eq("--width", "--width"));
    assert!(!str_eq("--width", "--widt"));
    assert!(!str_eq("é", "e"));
}

#[test]
fn run_app_main_returns_zero() {
    assert_eq!(run_app_main(vec!["prog".to_string(), "--fullscreen".to_string()]), 0);
}

use meteo::cli::{
    default_true, forecast_url, geocode_url, location_header, order_to_save, parse_args,
    place_name, resolve_postcode, should_save_postcode, terminal_width,
};

fn args(list: &[&str]) -> Vec<String> {
    list.iter().map(|s| s.to_string()).collect()
}

#[test]
fn arguments_are_read() {
    let a = parse_args(&args(&["meteo", "--fake", "78000"]));
    assert!(!a.help);
    assert!(a.fake);
    assert_eq!(a.reverse, None);
    assert_eq!(a.postcode.as_deref(), Some("78000"));
    let b = parse_args(&args(&["meteo", "-h"]));
    assert!(b.help);
    assert_eq!(b.postcode, None);
    let c = parse_args(&args(&["meteo", "--forward", "--reverse", "-x", "75001", "13001"]));
    assert_eq!(c.reverse, Some(true));
    assert_eq!(c.postcode.as_deref(), Some("75001"));
    let d = parse_args(&args(&["meteo", "--forward"]));
    assert_eq!(d.reverse, Some(false));
    let e = parse_args(&args(&["meteo"]));
    assert!(!e.help && !e.fake && e.reverse.is_none() && e.postcode.is_none());
    let f = parse_args(&args(&["--help"]));
    assert!(f.help);
    assert!(f.postcode.is_none());
    let g = parse_args(&Vec::new());
    assert!(!g.help);
}

#[test]
fn postcode_resolution() {
    assert_eq!(resolve_postcode(Some("75001"), "78000").as_deref(), Some("75001"));
    assert_eq!(resolve_postcode(Some(""), "78000").as_deref(), Some("78000"));
    assert_eq!(resolve_postcode(None, "78000").as_deref(), Some("78000"));
    assert_eq!(resolve_postcode(None, ""), None);
    assert_eq!(resolve_postcode(Some(""), ""), None);
    assert!(should_save_postcode(true, "75001", "78000"));
    assert!(!should_save_postcode(true, "78000", "78000"));
    assert!(!should_save_postcode(false, "75001", "78000"));
}

#[test]
fn order_preference() {
    assert_eq!(order_to_save(Some(true), false), Some(true));
    assert_eq!(order_to_save(Some(true), true), None);
    assert_eq!(order_to_save(Some(false), true), Some(false));
    assert_eq!(order_to_save(None, true), None);
}

#[test]
fn location_and_urls() {
    assert_eq!(location_header("Versailles", "78000"), "Versailles (78000)");
    assert_eq!(place_name(Some("Paris".to_string()), "Paris 1er".to_string()), "Paris");
    assert_eq!(place_name(None, "Paris 1er".to_string()), "Paris 1er");
    assert_eq!(
        geocode_url("78000"),
        "https://api-adresse.data.gouv.fr/search/?q=78000&type=municipality&limit=1"
    );
    let url = forecast_url("48.8049", "2.1204", Some("meteofrance_arome_france"), 2);
    assert_eq!(
        url,
        "https://api.open-meteo.com/v1/forecast?latitude=48.8049&longitude=2.1204&hourly=temperature_2m,precipitation,weathercode,windspeed_10m,winddirection_10m,windgusts_10m,surface_pressure&wind_speed_unit=kmh&timezone=Europe%2FParis&forecast_days=2&models=meteofrance_arome_france"
    );
    assert!(forecast_url("1.0000", "2.0000", None, 16).ends_with("&forecast_days=16"));
    assert!(default_true());
}

#[test]
fn terminal_width_override() {
    assert_eq!(terminal_width(Some("  120 "), Some(80)), Some(120));
    assert_eq!(terminal_width(Some("120"), None), Some(120));
    assert_eq!(terminal_width(Some("wide"), Some(80)), Some(80));
    assert_eq!(terminal_width(Some(""), None), None);
    assert_eq!(terminal_width(None, Some(80)), Some(80));
    assert_eq!(terminal_width(None, None), None);
}

#[test]
fn terminal_width_override_forms() {
    assert_eq!(terminal_width(Some("+90"), None), Some(90));
    assert_eq!(terminal_width(Some("-5"), Some(80)), Some(80));
    assert_eq!(terminal_width(Some("+"), Some(80)), Some(80));
    assert_eq!(terminal_width(Some("\u{3000}72\t"), None), Some(72));
    assert_eq!(terminal_width(Some("7 2"), Some(80)), Some(80));
    assert_eq!(terminal_width(Some("999999999999999999999999"), Some(80)), Some(80));
}

use claudexor_linux::prefs::{pref_value, Prefs, ThemePref};

#[test]
fn prefs_read_first_key_value_line() {
    let raw = "# saved\ntheme = x\ntheme=dark\r\nreduce_transparency= 1 \n";
    assert_eq!(pref_value(raw, "theme").as_deref(), Some("dark"));
    assert_eq!(pref_value(raw, "reduce_transparency").as_deref(), Some("1"));
    assert_eq!(pref_value(raw, "missing"), None);
    assert_eq!(pref_value("", "theme"), None);
    assert_eq!(pref_value("themes=light\n", "theme"), None);
}

#[test]
fn prefs_parse_defaults_and_env_override() {
    let p = Prefs::parse("", false);
    assert_eq!(p, Prefs { theme: ThemePref::System, reduce_transparency: false });
    let p = Prefs::parse("theme=light\nreduce_transparency=0\n", true);
    assert_eq!(p, Prefs { theme: ThemePref::Light, reduce_transparency: true });
    let p = Prefs::parse("theme=purple\n", false);
    assert_eq!(p.theme, ThemePref::System);
}

#[test]
fn prefs_round_trip() {
    for theme in [ThemePref::System, ThemePref::Light, ThemePref::Dark] {
        for reduce in [false, true] {
            let p = Prefs { theme, reduce_transparency: reduce };
            assert_eq!(Prefs::parse(&p.render(), false), p);
        }
    }
    let p = Prefs { theme: ThemePref::Dark, reduce_transparency: true };
    assert_eq!(p.render(), "theme=dark\nreduce_transparency=1\n");
}

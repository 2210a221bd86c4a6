use famulus_games::pfad::dateiname_von;
use famulus_games::heroic::{heroic_cache, heroic_spiele, ordnername, GogSpiel, Installiert};

#[test]
fn ordnername_streift_app() {
    assert_eq!(ordnername("/Users/x/Games/DREDGE.app"), "DREDGE");
    assert_eq!(ordnername("/Users/x/Games/Stardew Valley.app"), "Stardew Valley");
}

#[test]
fn dateiname_wie_path() {
    assert_eq!(dateiname_von("/a/b/"), Some("b".to_string()));
    assert_eq!(dateiname_von("/a/b/."), Some("b".to_string()));
    assert_eq!(dateiname_von("a/.."), None);
    assert_eq!(dateiname_von("/"), None);
    assert_eq!(dateiname_von(""), None);
    assert_eq!(dateiname_von("."), None);
    assert_eq!(dateiname_von("x.app.app"), Some("x.app.app".to_string()));
    assert_eq!(ordnername("x.app.app"), "x");
    assert_eq!(ordnername("/"), "/");
}

#[test]
fn heroic_verbindet_installation_und_cache() {
    let cache = heroic_cache(&vec![
        GogSpiel {
            app_name: "1".into(),
            title: "DREDGE".into(),
            art_square: "".into(),
            art_cover: "https://c/1.jpg".into(),
        },
        GogSpiel { app_name: "2".into(), title: "".into(), art_square: "lokal.png".into(), art_cover: "lokal.jpg".into() },
        GogSpiel {
            app_name: "4".into(),
            title: "Cyberpunk 2077".into(),
            art_square: "https://s/4.jpg".into(),
            art_cover: "https://c/4.jpg".into(),
        },
    ]);
    let inst = vec![
        Installiert { app_name: "1".into(), install_path: "/G/DREDGE.app".into(), install_size: "1 GiB".into() },
        Installiert { app_name: "2".into(), install_path: "/G/Stardew Valley.app".into(), install_size: "".into() },
        Installiert { app_name: "3".into(), install_path: "/G/Neu".into(), install_size: "".into() },
        Installiert { app_name: "4".into(), install_path: "/G/Cyberpunk 2077".into(), install_size: "".into() },
    ];
    let s = heroic_spiele(&inst, &cache, &vec![5, 0, 7, 0]);
    assert_eq!(s.len(), 4);
    assert_eq!((s[0].titel.as_str(), s[0].cover_url.as_str(), s[0].groesse_bytes), ("DREDGE", "https://c/1.jpg", 5));
    assert_eq!((s[1].titel.as_str(), s[1].cover_url.as_str()), ("Stardew Valley", ""));
    assert_eq!((s[2].titel.as_str(), s[2].id.as_str(), s[2].pfad.as_str()), ("Neu", "3", "/G/Neu"));
    // The portrait cover wins over the banner.
    assert_eq!(s[3].cover_url, "https://s/4.jpg");
}

use famulus_games::heroic::groesse_zerlegen;

#[test]
fn groesse_in_zahl_und_einheit() {
    assert_eq!(groesse_zerlegen("678.36 MiB"), Some(("678.36".to_string(), 1024 * 1024)));
    assert_eq!(groesse_zerlegen("  1.5\tGiB "), Some(("1.5".to_string(), 1024 * 1024 * 1024)));
    assert_eq!(groesse_zerlegen("3 TiB"), Some(("3".to_string(), 1099511627776)));
    assert_eq!(groesse_zerlegen("12 B"), Some(("12".to_string(), 1)));
    assert_eq!(groesse_zerlegen("12 kB"), Some(("12".to_string(), 0)));
    assert_eq!(groesse_zerlegen("kaputt"), None);
    assert_eq!(groesse_zerlegen(""), None);
    assert_eq!(groesse_zerlegen("1 2 3"), None);
}

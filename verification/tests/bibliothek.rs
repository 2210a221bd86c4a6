use famulus_games::{sammele_spiele, Spiel};

fn spiel(id: &str, titel: &str, quelle: &str) -> Spiel {
    Spiel {
        id: id.into(),
        titel: titel.into(),
        quelle: quelle.into(),
        pfad: String::new(),
        cover: String::new(),
        cover_url: String::new(),
        zuletzt_gespielt: 0,
        groesse_bytes: 0,
    }
}

#[test]
fn sortiert_nach_titel_ignoriert_grossschreibung() {
    let v = vec![spiel("1", "zelda", "Steam"), spiel("2", "Asteroids", "GOG")];
    let v = sammele_spiele(Some(v), None);
    assert_eq!(v[0].titel, "Asteroids");
}

#[test]
fn sammeln_liefert_auf_fremdmaschine_leer_statt_absturz() {
    // Without Steam and GOG nothing is read: an empty list is a valid result.
    let v = sammele_spiele(None, None);
    assert!(v.is_empty());
}

#[test]
fn quellen_sind_unabhaengig() {
    let gog = vec![spiel("g", "Gris", "GOG")];
    let v = sammele_spiele(None, Some(gog));
    assert_eq!(v.len(), 1);
    assert_eq!(v[0].id, "g");
}

#[test]
fn sortierung_ist_stabil() {
    let steam = vec![spiel("s1", "Doom", "Steam"), spiel("s2", "anno", "Steam")];
    let gog = vec![spiel("g1", "DOOM", "GOG"), spiel("g2", "Ärger", "GOG"), spiel("g3", "Zork", "GOG")];
    let v = sammele_spiele(Some(steam), Some(gog));
    let ids: Vec<&str> = v.iter().map(|s| s.id.as_str()).collect();
    assert_eq!(ids, vec!["s2", "s1", "g1", "g3", "g2"]);
}

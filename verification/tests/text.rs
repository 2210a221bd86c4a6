use famulus_games::pfad::dateistamm_von;
use famulus_games::text::{
    als_u64_ab, dezimal_exec, finde_text_ab, lex_kleiner_exec, trim_anfang, trim_ende, woerter_von, zeilen_grenzen,
};

const TEXTE: [&str; 16] = [
    "", "\n", "a", "a\n", "a\nb", "a\r\nb\r\n", "a\r", "a\r\r\n", "\n\n", " \t x \u{3000}", "\u{85}y\u{a0}",
    "\u{2000}\u{200A}z\u{202F}", "x\u{200B}", "  ", "ab\ncd\n\nef", "\r\n",
];

fn zeichen(s: &str) -> Vec<char> {
    s.chars().collect()
}

#[test]
fn zeilen_wie_str_lines() {
    for t in TEXTE {
        let v = zeichen(t);
        let g = zeilen_grenzen(&v);
        let meine: Vec<String> = g.iter().map(|&(a, b)| v[a..b].iter().collect()).collect();
        let std: Vec<String> = t.lines().map(String::from).collect();
        assert_eq!(meine, std, "{t:?}");
    }
}

#[test]
fn trim_wie_str_trim() {
    for t in TEXTE {
        let v = zeichen(t);
        let a = trim_anfang(&v, 0, v.len());
        let b = trim_ende(&v, a, v.len());
        let meins: String = v[a..b].iter().collect();
        assert_eq!(meins, t.trim(), "{t:?}");
    }
}

#[test]
fn woerter_wie_split_whitespace() {
    for t in TEXTE {
        let std: Vec<String> = t.split_whitespace().map(String::from).collect();
        assert_eq!(woerter_von(t), std, "{t:?}");
    }
}

#[test]
fn zahl_wie_u64_parse() {
    for t in ["", "+", "-", "0", "+0", "007", "12a", "-1", "18446744073709551615", "18446744073709551616", "++1", "1 ", "٣"] {
        let v = zeichen(t);
        assert_eq!(als_u64_ab(&v, 0, v.len()), t.parse::<u64>().ok(), "{t:?}");
    }
}

#[test]
fn reihenfolge_wie_string_ord() {
    let ws = ["", "a", "b", "ab", "aa", "Z", "ä", "\u{10000}", "\u{FFFF}", "a\u{0}"];
    for a in ws {
        for b in ws {
            assert_eq!(lex_kleiner_exec(&zeichen(a), &zeichen(b)), a.to_string() < b.to_string(), "{a:?} < {b:?}");
        }
    }
}

#[test]
fn dezimal_wie_display() {
    for n in [0u64, 9, 10, 99, 100, 1234567890, u64::MAX] {
        assert_eq!(dezimal_exec(n), n.to_string());
    }
}

#[test]
fn suche_wie_str_find() {
    for (s, p) in [("progress: 1", "progress:"), ("abc", ""), ("abc", "d"), ("aab", "ab"), ("", "")] {
        let v = zeichen(s);
        let pv = zeichen(p);
        let meins = finde_text_ab(&v, 0, v.len(), &pv);
        let std = s.find(p).map(|b| s[..b].chars().count());
        assert_eq!(meins, std, "{s:?} {p:?}");
    }
}

#[test]
fn dateistamm_wie_file_stem() {
    for p in ["", "/", "a", "a.b", ".a", "a.", "a.b.c", "/x/DREDGE.app", "..", "a/.."] {
        let std = std::path::Path::new(p).file_stem().map(|x| x.to_str().unwrap().to_string());
        assert_eq!(dateistamm_von(p), std, "{p:?}");
    }
}

//! Character-level text helpers: whitespace, trimming, searching,
//! line splitting and lexicographic comparison, all stated over `Seq<char>`.
use vstd::prelude::*;

verus! {

// ------------------------------------------------------------------ specs

/// Unicode `White_Space`, the property that `char::is_whitespace` tests.
pub open spec fn ist_leerraum(c: char) -> bool {
    ||| c == '\t' || c == '\n' || c == '\x0B' || c == '\x0C' || c == '\r'
    ||| c == ' ' || c == '\u{85}' || c == '\u{A0}' || c == '\u{1680}'
    ||| ('\u{2000}' <= c && c <= '\u{200A}')
    ||| c == '\u{2028}' || c == '\u{2029}' || c == '\u{202F}' || c == '\u{205F}'
    ||| c == '\u{3000}'
}

/// `str::trim_start`: the text without its leading whitespace.
pub open spec fn ohne_fuehrenden_leerraum(s: Seq<char>) -> Seq<char>
    decreases s.len(),
{
    if s.len() > 0 && ist_leerraum(s[0]) {
        ohne_fuehrenden_leerraum(s.drop_first())
    } else {
        s
    }
}

/// `str::trim_end`: the text without its trailing whitespace.
pub open spec fn ohne_endenden_leerraum(s: Seq<char>) -> Seq<char>
    decreases s.len(),
{
    if s.len() > 0 && ist_leerraum(s.last()) {
        ohne_endenden_leerraum(s.drop_last())
    } else {
        s
    }
}

/// `str::trim`: both ends stripped of whitespace.
pub open spec fn getrimmt(s: Seq<char>) -> Seq<char> {
    ohne_endenden_leerraum(ohne_fuehrenden_leerraum(s))
}

/// `str::starts_with` with a string pattern.
pub open spec fn beginnt_mit(s: Seq<char>, p: Seq<char>) -> bool {
    p.len() <= s.len() && s.subrange(0, p.len() as int) == p
}

/// `str::ends_with` with a string pattern.
pub open spec fn endet_mit(s: Seq<char>, p: Seq<char>) -> bool {
    p.len() <= s.len() && s.subrange(s.len() - p.len(), s.len() as int) == p
}

/// `str::find` with a character: the index of its first occurrence.
pub open spec fn finde(s: Seq<char>, c: char) -> Option<int>
    decreases s.len(),
{
    if s.len() == 0 {
        None
    } else if s[0] == c {
        Some(0)
    } else {
        match finde(s.drop_first(), c) {
            Some(i) => Some(i + 1),
            None => None,
        }
    }
}

/// `str::find` with a string pattern: the index of its first occurrence.
pub open spec fn finde_text(s: Seq<char>, p: Seq<char>) -> Option<int>
    decreases s.len(),
{
    if beginnt_mit(s, p) {
        Some(0)
    } else if s.len() == 0 {
        None
    } else {
        match finde_text(s.drop_first(), p) {
            Some(i) => Some(i + 1),
            None => None,
        }
    }
}

/// `str::contains` with a string pattern.
pub open spec fn enthaelt(s: Seq<char>, p: Seq<char>) -> bool {
    finde_text(s, p) is Some
}

/// `str::trim_start_matches('"')`: the text without its leading quotes.
pub open spec fn ohne_fuehrende_anfuehrungszeichen(s: Seq<char>) -> Seq<char>
    decreases s.len(),
{
    if s.len() > 0 && s[0] == '"' {
        ohne_fuehrende_anfuehrungszeichen(s.drop_first())
    } else {
        s
    }
}

/// The tabs at the start of a text.
pub open spec fn fuehrende_tabs(s: Seq<char>) -> Seq<char>
    decreases s.len(),
{
    if s.len() > 0 && s[0] == '\t' {
        seq!['\t'] + fuehrende_tabs(s.drop_first())
    } else {
        Seq::empty()
    }
}


/// `str::trim_end_matches(".app")`: the text without any number of trailing
/// `.app`.
pub open spec fn ohne_app_endung(s: Seq<char>) -> Seq<char>
    decreases s.len(),
{
    if s.len() >= 4 && endet_mit(s, ".app"@) {
        ohne_app_endung(s.take(s.len() - 4))
    } else {
        s
    }
}

/// The index of the last occurrence of `c`.
pub open spec fn letzter_index(s: Seq<char>, c: char) -> Option<int>
    decreases s.len(),
{
    if s.len() == 0 {
        None
    } else if s.last() == c {
        Some(s.len() - 1)
    } else {
        letzter_index(s.drop_last(), c)
    }
}


/// Length of the leading run of non-whitespace.
pub open spec fn wortlaenge(s: Seq<char>) -> nat
    decreases s.len(),
{
    if s.len() == 0 || ist_leerraum(s[0]) {
        0
    } else {
        1 + wortlaenge(s.drop_first())
    }
}

pub proof fn lemma_wortlaenge(s: Seq<char>)
    ensures
        wortlaenge(s) <= s.len(),
    decreases s.len(),
{
    if s.len() > 0 && !ist_leerraum(s[0]) {
        lemma_wortlaenge(s.drop_first());
    }
}

/// `str::split_whitespace`: the non-empty runs between whitespace.
pub open spec fn woerter(s: Seq<char>) -> Seq<Seq<char>>
    decreases s.len(),
{
    if s.len() == 0 {
        Seq::empty()
    } else if ist_leerraum(s[0]) {
        woerter(s.drop_first())
    } else {
        proof {
            lemma_wortlaenge(s);
        }
        seq![s.take(wortlaenge(s) as int)] + woerter(s.skip(wortlaenge(s) as int))
    }
}

/// The decimal digits of a number, most significant first (`u64`'s `Display`).
pub open spec fn dezimal(n: nat) -> Seq<char>
    decreases n,
{
    if n < 10 {
        seq![((48 + n) as u8) as char]
    } else {
        dezimal(n / 10) + seq![((48 + n % 10) as u8) as char]
    }
}

/// Views an optional string as an optional character sequence.
pub open spec fn sicht(o: Option<String>) -> Option<Seq<char>> {
    match o {
        Some(s) => Some(s@),
        None => None,
    }
}


/// A line without the `'\r'` that ends it, if any (the `"\r\n"` ending of `str::lines`).
pub open spec fn ohne_wagenruecklauf(l: Seq<char>) -> Seq<char> {
    if l.len() > 0 && l.last() == '\r' {
        l.drop_last()
    } else {
        l
    }
}

/// `str::lines`: the text split at `'\n'`, a `'\r'` directly before the `'\n'`
/// dropped, and no empty line after a final `'\n'`.
pub open spec fn zeilen(s: Seq<char>) -> Seq<Seq<char>>
    decreases s.len(),
{
    if s.len() == 0 {
        Seq::empty()
    } else {
        match finde(s, '\n') {
            Some(i) => {
                if 0 <= i < s.len() {
                    seq![ohne_wagenruecklauf(s.take(i))] + zeilen(s.skip(i + 1))
                } else {
                    Seq::empty()
                }
            },
            None => seq![s],
        }
    }
}

/// The value of a decimal digit string (most significant digit first).
pub open spec fn ziffernwert(d: Seq<char>) -> nat
    decreases d.len(),
{
    if d.len() == 0 {
        0
    } else {
        ziffernwert(d.drop_last()) * 10 + ((d.last() as nat) - ('0' as nat)) as nat
    }
}

pub open spec fn ist_ziffer(c: char) -> bool {
    '0' <= c && c <= '9'
}

/// The text without one leading `'+'`.
pub open spec fn ohne_plus(s: Seq<char>) -> Seq<char> {
    if s.len() > 0 && s[0] == '+' {
        s.drop_first()
    } else {
        s
    }
}

/// Every character is a decimal digit.
pub open spec fn nur_ziffern(d: Seq<char>) -> bool {
    forall|i: int| 0 <= i < d.len() ==> ist_ziffer(#[trigger] d[i])
}

/// `<u64 as FromStr>::from_str`: an optional `'+'`, then one or more decimal
/// digits whose value fits in a `u64`.
pub open spec fn als_u64(s: Seq<char>) -> Option<u64> {
    let d = ohne_plus(s);
    if d.len() > 0 && nur_ziffern(d) && ziffernwert(d) <= u64::MAX {
        Some(ziffernwert(d) as u64)
    } else {
        None
    }
}

/// Lexicographic order of character sequences by code point: the order of
/// `String`'s `Ord`, since UTF-8 keeps the order of code points.
pub open spec fn lex_kleiner(a: Seq<char>, b: Seq<char>) -> bool
    decreases a.len(),
{
    if b.len() == 0 {
        false
    } else if a.len() == 0 {
        true
    } else if a[0] != b[0] {
        (a[0] as u32) < (b[0] as u32)
    } else {
        lex_kleiner(a.drop_first(), b.drop_first())
    }
}

/// What `str::to_lowercase` returns for a text (Unicode lowercase mapping).
pub uninterp spec fn kleinschreibung(s: Seq<char>) -> Seq<char>;

// ------------------------------------------------------------------ lemmas

pub proof fn lemma_finde_verschoben(s: Seq<char>, c: char, i: int)
    requires
        0 <= i <= s.len(),
        forall|k: int| 0 <= k < i ==> s[k] != c,
    ensures
        finde(s, c) == (match finde(s.skip(i), c) {
            Some(j) => Some(j + i),
            None => None,
        }),
    decreases i,
{
    if i > 0 {
        lemma_finde_verschoben(s.drop_first(), c, i - 1);
        assert(s.drop_first().skip(i - 1) =~= s.skip(i));
    } else {
        assert(s.skip(0) =~= s);
        match finde(s, c) {
            Some(j) => {},
            None => {},
        }
    }
}

pub proof fn lemma_finde_grenzen(s: Seq<char>, c: char)
    ensures
        finde(s, c) matches Some(i) ==> 0 <= i < s.len() && s[i] == c && forall|k: int|
            0 <= k < i ==> s[k] != c,
        finde(s, c) is None ==> forall|k: int| 0 <= k < s.len() ==> s[k] != c,
    decreases s.len(),
{
    if s.len() > 0 {
        lemma_finde_grenzen(s.drop_first(), c);
        if s[0] != c {
            assert forall|k: int| 0 < k < s.len() implies s[k] == s.drop_first()[k - 1] by {}
        }
    }
}


pub proof fn lemma_lex_irreflexiv(a: Seq<char>)
    ensures
        !lex_kleiner(a, a),
    decreases a.len(),
{
    if a.len() > 0 {
        lemma_lex_irreflexiv(a.drop_first());
    }
}

pub proof fn lemma_lex_transitiv(a: Seq<char>, b: Seq<char>, c: Seq<char>)
    requires
        lex_kleiner(a, b),
        lex_kleiner(b, c),
    ensures
        lex_kleiner(a, c),
    decreases a.len(),
{
    if a.len() > 0 && b.len() > 0 && c.len() > 0 {
        if a[0] == b[0] && b[0] == c[0] {
            lemma_lex_transitiv(a.drop_first(), b.drop_first(), c.drop_first());
        }
    }
}

pub proof fn lemma_lex_total(a: Seq<char>, b: Seq<char>)
    ensures
        lex_kleiner(a, b) || lex_kleiner(b, a) || a == b,
    decreases a.len(),
{
    if a.len() > 0 && b.len() > 0 {
        if a[0] == b[0] {
            lemma_lex_total(a.drop_first(), b.drop_first());
            if a.drop_first() == b.drop_first() {
                assert(a =~= seq![a[0]] + a.drop_first());
                assert(b =~= seq![b[0]] + b.drop_first());
            }
        } else {
            if (a[0] as u32) == (b[0] as u32) {
                vstd::utf8::char_u32_cast(a[0], a[0] as u32);
                vstd::utf8::char_u32_cast(b[0], b[0] as u32);
            }
        }
    } else if a.len() == 0 && b.len() == 0 {
        assert(a =~= b);
    }
}

pub proof fn lemma_lex_asymmetrisch(a: Seq<char>, b: Seq<char>)
    ensures
        !(lex_kleiner(a, b) && lex_kleiner(b, a)),
{
    if lex_kleiner(a, b) && lex_kleiner(b, a) {
        lemma_lex_transitiv(a, b, a);
        lemma_lex_irreflexiv(a);
    }
}


pub proof fn lemma_lex_verschoben(a: Seq<char>, b: Seq<char>, i: int)
    requires
        0 <= i <= a.len(),
        i <= b.len(),
        forall|k: int| 0 <= k < i ==> a[k] == b[k],
    ensures
        lex_kleiner(a, b) == lex_kleiner(a.skip(i), b.skip(i)),
    decreases i,
{
    if i > 0 {
        lemma_lex_verschoben(a.drop_first(), b.drop_first(), i - 1);
        assert(a.drop_first().skip(i - 1) =~= a.skip(i));
        assert(b.drop_first().skip(i - 1) =~= b.skip(i));
    } else {
        assert(a.skip(0) =~= a);
        assert(b.skip(0) =~= b);
    }
}

pub proof fn lemma_ziffernwert_monoton(d: Seq<char>, k: int)
    requires
        0 <= k <= d.len(),
        nur_ziffern(d),
    ensures
        ziffernwert(d.take(k)) <= ziffernwert(d),
    decreases d.len(),
{
    if k < d.len() {
        assert(d.drop_last().take(k) =~= d.take(k));
        lemma_ziffernwert_monoton(d.drop_last(), k);
    } else {
        assert(d.take(k) =~= d);
    }
}


pub proof fn lemma_finde_text_verschoben(s: Seq<char>, p: Seq<char>, i: int)
    requires
        0 <= i <= s.len(),
        forall|k: int| 0 <= k < i ==> !beginnt_mit(#[trigger] s.skip(k), p),
    ensures
        finde_text(s, p) == (match finde_text(s.skip(i), p) {
            Some(j) => Some(j + i),
            None => None,
        }),
    decreases i,
{
    if i > 0 {
        assert(s.skip(0) =~= s);
        assert forall|k: int| 0 <= k < i - 1 implies !beginnt_mit(#[trigger] s.drop_first().skip(k), p) by {
            assert(s.drop_first().skip(k) =~= s.skip(k + 1));
        }
        lemma_finde_text_verschoben(s.drop_first(), p, i - 1);
        assert(s.drop_first().skip(i - 1) =~= s.skip(i));
    } else {
        assert(s.skip(0) =~= s);
        match finde_text(s, p) {
            Some(j) => {},
            None => {},
        }
    }
}

pub proof fn lemma_finde_text_grenzen(s: Seq<char>, p: Seq<char>)
    ensures
        finde_text(s, p) matches Some(i) ==> 0 <= i && i + p.len() <= s.len() && s.subrange(i, i + p.len()) == p,
    decreases s.len(),
{
    if !beginnt_mit(s, p) && s.len() > 0 {
        lemma_finde_text_grenzen(s.drop_first(), p);
        match finde_text(s.drop_first(), p) {
            Some(i) => {
                assert(s.drop_first().subrange(i, i + p.len()) =~= s.subrange(i + 1, i + 1 + p.len()));
            },
            None => {},
        }
    }
}


/// Only whitespace.
pub open spec fn nur_leerraum(p: Seq<char>) -> bool {
    forall|k: int| 0 <= k < p.len() ==> ist_leerraum(#[trigger] p[k])
}

pub proof fn lemma_fuehrender_leerraum_weg(p: Seq<char>, x: Seq<char>)
    requires
        nur_leerraum(p),
    ensures
        ohne_fuehrenden_leerraum(p + x) == ohne_fuehrenden_leerraum(x),
    decreases p.len(),
{
    if p.len() > 0 {
        assert((p + x).drop_first() =~= p.drop_first() + x);
        assert(ist_leerraum(p[0]));
        assert forall|k: int| 0 <= k < p.drop_first().len() implies ist_leerraum(#[trigger] p.drop_first()[k]) by {
            assert(p.drop_first()[k] == p[k + 1]);
        }
        lemma_fuehrender_leerraum_weg(p.drop_first(), x);
    } else {
        assert(p + x =~= x);
    }
}

pub proof fn lemma_endender_leerraum_hinter(a: Seq<char>, q: Seq<char>)
    requires
        a.len() > 0,
        !ist_leerraum(a.last()),
    ensures
        ohne_endenden_leerraum(a + q) == a + ohne_endenden_leerraum(q),
    decreases q.len(),
{
    if q.len() == 0 {
        assert(a + q =~= a);
        assert(a + ohne_endenden_leerraum(q) =~= a);
    } else if ist_leerraum(q.last()) {
        assert((a + q).drop_last() =~= a + q.drop_last());
        lemma_endender_leerraum_hinter(a, q.drop_last());
    } else {
        assert((a + q).last() == q.last());
    }
}

// ------------------------------------------------------------------ exec

/// Appends one character to a string. Calls `String::push`; the contract
/// claims that afterwards the string holds its old characters and then `c`.
#[verifier::external_body]
pub(crate) fn zeichen_anhaengen(s: &mut String, c: char)
    ensures
        final(s)@ == old(s)@.push(c),
{
    s.push(c);
}

/// The characters of a string slice, in order.
pub fn zeichen_von(s: &str) -> (v: Vec<char>)
    ensures
        v@ == s@,
{
    let mut v: Vec<char> = Vec::new();
    for c in it: s.chars()
        invariant
            v@ == it.seq().take(it.index()),
    {
        v.push(c);
    }
    v
}

/// A string holding `v[von..bis]`.
pub fn string_aus(v: &Vec<char>, von: usize, bis: usize) -> (s: String)
    requires
        von <= bis <= v.len(),
    ensures
        s@ == v@.subrange(von as int, bis as int),
{
    let mut s = String::new();
    let mut i = von;
    while i < bis
        invariant
            von <= i <= bis <= v.len(),
            s@ == v@.subrange(von as int, i as int),
        decreases bis - i,
    {
        zeichen_anhaengen(&mut s, v[i]);
        assert(v@.subrange(von as int, i + 1) =~= v@.subrange(von as int, i as int).push(v@[i as int]));
        i += 1;
    }
    s
}

/// `char::is_whitespace`.
pub fn ist_leerraum_exec(c: char) -> (b: bool)
    ensures
        b == ist_leerraum(c),
{
    c == '\t' || c == '\n' || c == '\x0B' || c == '\x0C' || c == '\r' || c == ' ' || c == '\u{85}'
        || c == '\u{A0}' || c == '\u{1680}' || ('\u{2000}' <= c && c <= '\u{200A}') || c == '\u{2028}'
        || c == '\u{2029}' || c == '\u{202F}' || c == '\u{205F}' || c == '\u{3000}'
}

/// Start of `v[von..bis]` once leading whitespace is skipped.
pub fn trim_anfang(v: &Vec<char>, von: usize, bis: usize) -> (i: usize)
    requires
        von <= bis <= v.len(),
    ensures
        von <= i <= bis,
        v@.subrange(i as int, bis as int) == ohne_fuehrenden_leerraum(v@.subrange(von as int, bis as int)),
{
    let mut i = von;
    while i < bis && ist_leerraum_exec(v[i])
        invariant
            von <= i <= bis <= v.len(),
            ohne_fuehrenden_leerraum(v@.subrange(i as int, bis as int)) == ohne_fuehrenden_leerraum(
                v@.subrange(von as int, bis as int),
            ),
        decreases bis - i,
    {
        assert(v@.subrange(i as int, bis as int).drop_first() =~= v@.subrange(i + 1, bis as int));
        i += 1;
    }
    i
}

/// End of `v[von..bis]` once trailing whitespace is dropped.
pub fn trim_ende(v: &Vec<char>, von: usize, bis: usize) -> (j: usize)
    requires
        von <= bis <= v.len(),
    ensures
        von <= j <= bis,
        v@.subrange(von as int, j as int) == ohne_endenden_leerraum(v@.subrange(von as int, bis as int)),
{
    let mut j = bis;
    while j > von && ist_leerraum_exec(v[j - 1])
        invariant
            von <= j <= bis <= v.len(),
            ohne_endenden_leerraum(v@.subrange(von as int, j as int)) == ohne_endenden_leerraum(
                v@.subrange(von as int, bis as int),
            ),
        decreases j - von,
    {
        assert(v@.subrange(von as int, j as int).drop_last() =~= v@.subrange(von as int, j - 1));
        j -= 1;
    }
    j
}

/// Whether `v[von..bis]` starts with `p`.
pub fn beginnt_mit_ab(v: &Vec<char>, von: usize, bis: usize, p: &Vec<char>) -> (b: bool)
    requires
        von <= bis <= v.len(),
    ensures
        b == beginnt_mit(v@.subrange(von as int, bis as int), p@),
{
    if p.len() > bis - von {
        return false;
    }
    let mut k: usize = 0;
    while k < p.len()
        invariant
            p.len() <= bis - von,
            von <= bis <= v.len(),
            k <= p.len(),
            forall|m: int| 0 <= m < k ==> v@[von + m] == p@[m],
        decreases p.len() - k,
    {
        if v[von + k] != p[k] {
            assert(v@.subrange(von as int, bis as int).subrange(0, p.len() as int)[k as int] != p@[k as int]);
            return false;
        }
        k += 1;
    }
    assert(v@.subrange(von as int, bis as int).subrange(0, p.len() as int) =~= p@);
    true
}

/// First index of `c` in `v[von..bis]`, counted from the start of `v`.
pub fn finde_ab(v: &Vec<char>, von: usize, bis: usize, c: char) -> (r: Option<usize>)
    requires
        von <= bis <= v.len(),
    ensures
        r matches Some(i) ==> von <= i < bis && v@[i as int] == c && finde(
            v@.subrange(von as int, bis as int),
            c,
        ) == Some(i - von),
        r is None ==> finde(v@.subrange(von as int, bis as int), c) is None,
{
    let ghost s = v@.subrange(von as int, bis as int);
    let mut i = von;
    while i < bis
        invariant
            von <= i <= bis <= v.len(),
            s == v@.subrange(von as int, bis as int),
            forall|k: int| 0 <= k < i - von ==> s[k] != c,
        decreases bis - i,
    {
        if v[i] == c {
            proof {
                lemma_finde_verschoben(s, c, i - von);
                assert(s.skip(i - von)[0] == c);
            }
            return Some(i);
        }
        i += 1;
    }
    proof {
        lemma_finde_verschoben(s, c, i - von);
        assert(s.skip(i - von).len() == 0);
    }
    None
}


/// The text in lowercase. Calls `str::to_lowercase`; the contract claims
/// only that the result is `kleinschreibung` of the text, a function of the
/// text alone. What the Unicode lowercase mapping gives for a character
/// (and the special case of a final sigma) is left unsaid.
#[verifier::external_body]
pub(crate) fn kleinbuchstaben(s: &str) -> (r: String)
    ensures
        r@ == kleinschreibung(s@),
{
    s.to_lowercase()
}

/// Views line bounds as the lines they delimit.
pub open spec fn grenzen_sicht(v: Seq<char>, g: Seq<(usize, usize)>) -> Seq<Seq<char>> {
    Seq::new(g.len(), |i: int| v.subrange(g[i].0 as int, g[i].1 as int))
}

/// The bounds of the lines of `v`, as `str::lines` splits them.
pub fn zeilen_grenzen(v: &Vec<char>) -> (g: Vec<(usize, usize)>)
    ensures
        forall|i: int| 0 <= i < g.len() ==> (#[trigger] g@[i]).0 <= g@[i].1 <= v.len(),
        grenzen_sicht(v@, g@) == zeilen(v@),
{
    let mut g: Vec<(usize, usize)> = Vec::new();
    let mut p: usize = 0;
    assert(v@.skip(0) =~= v@);
    while p < v.len()
        invariant
            p <= v.len(),
            forall|i: int| 0 <= i < g.len() ==> (#[trigger] g@[i]).0 <= g@[i].1 <= v.len(),
            zeilen(v@) == grenzen_sicht(v@, g@) + zeilen(v@.skip(p as int)),
        decreases v.len() - p,
    {
        let ghost s = v@.skip(p as int);
        let ghost alt = g@;
        assert(v@.subrange(p as int, v.len() as int) =~= s);
        match finde_ab(v, p, v.len(), '\n') {
            Some(e) => {
                proof {
                    lemma_finde_grenzen(s, '\n');
                }
                let ende = if e > p && v[e - 1] == '\r' {
                    e - 1
                } else {
                    e
                };
                proof {
                    assert(s.take(e - p) =~= v@.subrange(p as int, e as int));
                    assert(ohne_wagenruecklauf(s.take(e - p)) =~= v@.subrange(p as int, ende as int));
                    assert(s.skip(e - p + 1) =~= v@.skip(e + 1));
                }
                g.push((p, ende));
                assert(grenzen_sicht(v@, g@) =~= grenzen_sicht(v@, alt) + seq![v@.subrange(p as int, ende as int)]);
                p = e + 1;
            },
            None => {
                g.push((p, v.len()));
                assert(grenzen_sicht(v@, g@) =~= grenzen_sicht(v@, alt) + seq![s]);
                assert(v@.skip(v.len() as int).len() == 0);
                p = v.len();
            },
        }
    }
    assert(v@.skip(p as int).len() == 0);
    assert(zeilen(v@) =~= grenzen_sicht(v@, g@));
    g
}

/// `<u64 as FromStr>::from_str` on `v[von..bis]`.
pub fn als_u64_ab(v: &Vec<char>, von: usize, bis: usize) -> (r: Option<u64>)
    requires
        von <= bis <= v.len(),
    ensures
        r == als_u64(v@.subrange(von as int, bis as int)),
{
    let ghost s = v@.subrange(von as int, bis as int);
    let start = if von < bis && v[von] == '+' {
        von + 1
    } else {
        von
    };
    let ghost d = v@.subrange(start as int, bis as int);
    assert(d =~= ohne_plus(s));
    if start == bis {
        return None;
    }
    let mut wert: u64 = 0;
    let mut k: usize = start;
    while k < bis
        invariant
            start <= k <= bis <= v.len(),
            d == v@.subrange(start as int, bis as int),
            s == v@.subrange(von as int, bis as int),
            d == ohne_plus(s),
            d.len() > 0,
            forall|i: int| 0 <= i < k - start ==> ist_ziffer(#[trigger] d[i]),
            wert == ziffernwert(d.take(k - start)),
        decreases bis - k,
    {
        let c = v[k];
        if !('0' <= c && c <= '9') {
            assert(!ist_ziffer(d[k - start]));
            return None;
        }
        let ziffer = (c as u32 - '0' as u32) as u64;
        assert(d.take(k - start + 1).drop_last() =~= d.take(k - start));
        let naechster = match wert.checked_mul(10) {
            Some(m) => m.checked_add(ziffer),
            None => None,
        };
        match naechster {
            Some(n) => {
                wert = n;
            },
            None => {
                proof {
                    assert(ziffernwert(d.take(k - start + 1)) > u64::MAX);
                    if nur_ziffern(d) {
                        lemma_ziffernwert_monoton(d, k - start + 1);
                    }
                }
                return None;
            },
        }
        k += 1;
    }
    assert(d.take(k - start) =~= d);
    Some(wert)
}

/// Whether `a` comes before `b` in the lexicographic order of code points.
pub fn lex_kleiner_exec(a: &Vec<char>, b: &Vec<char>) -> (r: bool)
    ensures
        r == lex_kleiner(a@, b@),
{
    let mut i: usize = 0;
    while i < a.len() && i < b.len() && a[i] == b[i]
        invariant
            i <= a.len(),
            i <= b.len(),
            forall|k: int| 0 <= k < i ==> a@[k] == b@[k],
        decreases a.len() - i,
    {
        i += 1;
    }
    proof {
        lemma_lex_verschoben(a@, b@, i as int);
    }
    if i == b.len() {
        false
    } else if i == a.len() {
        true
    } else {
        (a[i] as u32) < (b[i] as u32)
    }
}

/// First index of the text `p` in `v[von..bis]`, counted from the start of `v`.
pub fn finde_text_ab(v: &Vec<char>, von: usize, bis: usize, p: &Vec<char>) -> (r: Option<usize>)
    requires
        von <= bis <= v.len(),
    ensures
        r matches Some(i) ==> von <= i <= bis && finde_text(v@.subrange(von as int, bis as int), p@) == Some(
            i - von,
        ),
        r is None ==> finde_text(v@.subrange(von as int, bis as int), p@) is None,
{
    let ghost s = v@.subrange(von as int, bis as int);
    let mut i = von;
    loop
        invariant
            von <= i <= bis <= v.len(),
            s == v@.subrange(von as int, bis as int),
            forall|k: int| 0 <= k < i - von ==> !beginnt_mit(#[trigger] s.skip(k), p@),
        decreases bis - i,
    {
        assert(s.skip(i - von) =~= v@.subrange(i as int, bis as int));
        if beginnt_mit_ab(v, i, bis, p) {
            proof {
                lemma_finde_text_verschoben(s, p@, i - von);
            }
            return Some(i);
        }
        if i == bis {
            proof {
                lemma_finde_text_verschoben(s, p@, i - von);
            }
            return None;
        }
        i += 1;
    }
}

/// Whether `v[von..bis]` contains the text `p`.
pub fn enthaelt_ab(v: &Vec<char>, von: usize, bis: usize, p: &str) -> (b: bool)
    requires
        von <= bis <= v.len(),
    ensures
        b == enthaelt(v@.subrange(von as int, bis as int), p@),
{
    let pv = zeichen_von(p);
    finde_text_ab(v, von, bis, &pv).is_some()
}

/// Index after the leading quotes of `v[von..bis]`.
pub fn anfuehrungszeichen_ueberspringen(v: &Vec<char>, von: usize, bis: usize) -> (i: usize)
    requires
        von <= bis <= v.len(),
    ensures
        von <= i <= bis,
        v@.subrange(i as int, bis as int) == ohne_fuehrende_anfuehrungszeichen(v@.subrange(von as int, bis as int)),
{
    let mut i = von;
    while i < bis && v[i] == '"'
        invariant
            von <= i <= bis <= v.len(),
            ohne_fuehrende_anfuehrungszeichen(v@.subrange(i as int, bis as int))
                == ohne_fuehrende_anfuehrungszeichen(v@.subrange(von as int, bis as int)),
        decreases bis - i,
    {
        assert(v@.subrange(i as int, bis as int).drop_first() =~= v@.subrange(i + 1, bis as int));
        i += 1;
    }
    i
}

/// End of the leading tabs of `v[von..bis]`.
pub fn tabs_ende(v: &Vec<char>, von: usize, bis: usize) -> (i: usize)
    requires
        von <= bis <= v.len(),
    ensures
        von <= i <= bis,
        v@.subrange(von as int, i as int) == fuehrende_tabs(v@.subrange(von as int, bis as int)),
{
    let mut i = von;
    while i < bis && v[i] == '\t'
        invariant
            von <= i <= bis <= v.len(),
            forall|k: int| von <= k < i ==> v@[k] == '\t',
            fuehrende_tabs(v@.subrange(von as int, bis as int)) == v@.subrange(von as int, i as int)
                + fuehrende_tabs(v@.subrange(i as int, bis as int)),
        decreases bis - i,
    {
        assert(v@.subrange(i as int, bis as int).drop_first() =~= v@.subrange(i + 1, bis as int));
        assert(v@.subrange(von as int, i + 1) =~= v@.subrange(von as int, i as int) + seq!['\t']);
        i += 1;
    }
    assert(fuehrende_tabs(v@.subrange(i as int, bis as int)) =~= Seq::<char>::empty());
    assert(v@.subrange(von as int, i as int) + Seq::<char>::empty() =~= v@.subrange(von as int, i as int));
    i
}

/// Whether the text `s` starts with the text `p`.
pub fn beginnt_mit_text(s: &str, p: &str) -> (b: bool)
    ensures
        b == beginnt_mit(s@, p@),
{
    let v = zeichen_von(s);
    let pv = zeichen_von(p);
    assert(v@.subrange(0, v.len() as int) =~= v@);
    beginnt_mit_ab(&v, 0, v.len(), &pv)
}

/// Whether the text `s` ends with the text `p`.
pub fn endet_mit_text(s: &str, p: &str) -> (b: bool)
    ensures
        b == endet_mit(s@, p@),
{
    let v = zeichen_von(s);
    let pv = zeichen_von(p);
    if pv.len() > v.len() {
        return false;
    }
    let start = v.len() - pv.len();
    let r = beginnt_mit_ab(&v, start, v.len(), &pv);
    assert(v@.subrange(start as int, v.len() as int).subrange(0, pv.len() as int) =~= v@.subrange(
        start as int,
        v.len() as int,
    ));
    r
}

/// End of `v[von..bis]` once trailing `.app` are removed.
pub fn ohne_app_ende(v: &Vec<char>, von: usize, bis: usize) -> (j: usize)
    requires
        von <= bis <= v.len(),
    ensures
        von <= j <= bis,
        v@.subrange(von as int, j as int) == ohne_app_endung(v@.subrange(von as int, bis as int)),
{
    let app = zeichen_von(".app");
    proof {
        reveal_strlit(".app");
    }
    let mut j = bis;
    while j - von >= 4 && beginnt_mit_ab(v, j - 4, j, &app)
        invariant
            von <= j <= bis <= v.len(),
            app@ == ".app"@,
            ohne_app_endung(v@.subrange(von as int, j as int)) == ohne_app_endung(v@.subrange(von as int, bis as int)),
        decreases j,
    {
        proof {
            reveal_strlit(".app");
            let t = v@.subrange(von as int, j as int);
            assert(v@.subrange(j - 4, j as int).subrange(0, 4) =~= t.subrange(t.len() - 4, t.len() as int));
            assert(endet_mit(t, ".app"@));
            assert(t.take(t.len() - 4) =~= v@.subrange(von as int, j - 4));
        }
        j -= 4;
    }
    proof {
        let t = v@.subrange(von as int, j as int);
        if t.len() >= 4 {
            assert(v@.subrange(j - 4, j as int).subrange(0, 4) =~= t.subrange(t.len() - 4, t.len() as int));
        }
    }
    j
}

/// Index of the last `c` in `v[von..bis]`, counted from the start of `v`.
pub fn letzter_index_ab(v: &Vec<char>, von: usize, bis: usize, c: char) -> (r: Option<usize>)
    requires
        von <= bis <= v.len(),
    ensures
        r matches Some(i) ==> von <= i < bis && letzter_index(v@.subrange(von as int, bis as int), c) == Some(
            i - von,
        ),
        r is None ==> letzter_index(v@.subrange(von as int, bis as int), c) is None,
{
    let mut j = bis;
    while j > von
        invariant
            von <= j <= bis <= v.len(),
            letzter_index(v@.subrange(von as int, bis as int), c) == letzter_index(v@.subrange(von as int, j as int), c),
        decreases j,
    {
        if v[j - 1] == c {
            return Some(j - 1);
        }
        assert(v@.subrange(von as int, j as int).drop_last() =~= v@.subrange(von as int, j - 1));
        j -= 1;
    }
    None
}

/// The words of a text, as `str::split_whitespace` gives them.
pub fn woerter_von(s: &str) -> (r: Vec<String>)
    ensures
        r@.map_values(|w: String| w@) == woerter(s@),
{
    let v = zeichen_von(s);
    let mut r: Vec<String> = Vec::new();
    let mut p: usize = 0;
    assert(v@.skip(0) =~= v@);
    while p < v.len()
        invariant
            p <= v.len(),
            v@ == s@,
            woerter(s@) == r@.map_values(|w: String| w@) + woerter(v@.skip(p as int)),
        decreases v.len() - p,
    {
        let ghost t = v@.skip(p as int);
        if ist_leerraum_exec(v[p]) {
            assert(t.drop_first() =~= v@.skip(p + 1));
            p += 1;
        } else {
            let mut e = p;
            while e < v.len() && !ist_leerraum_exec(v[e])
                invariant
                    p <= e <= v.len(),
                    t == v@.skip(p as int),
                    wortlaenge(t) == (e - p) + wortlaenge(v@.skip(e as int)),
                decreases v.len() - e,
            {
                assert(v@.skip(e as int).drop_first() =~= v@.skip(e + 1));
                e += 1;
            }
            assert(wortlaenge(v@.skip(e as int)) == 0);
            let ghost alt = r@.map_values(|w: String| w@);
            let wort = string_aus(&v, p, e);
            r.push(wort);
            assert(t.take(e - p) =~= v@.subrange(p as int, e as int));
            assert(t.skip(e - p) =~= v@.skip(e as int));
            assert(r@.map_values(|w: String| w@) =~= alt.push(v@.subrange(p as int, e as int)));
            p = e;
        }
    }
    assert(v@.skip(p as int).len() == 0);
    assert(woerter(s@) =~= r@.map_values(|w: String| w@));
    r
}

/// A number in decimal, as `u64`'s `Display` writes it.
pub fn dezimal_exec(n: u64) -> (r: String)
    ensures
        r@ == dezimal(n as nat),
    decreases n,
{
    if n < 10 {
        let mut r = String::new();
        zeichen_anhaengen(&mut r, ((48 + n) as u8) as char);
        r
    } else {
        let mut r = dezimal_exec(n / 10);
        zeichen_anhaengen(&mut r, ((48 + n % 10) as u8) as char);
        r
    }
}

} // verus!

//! Which font files are worth loading, and where to look for them.
//!
//! Loading every font of a system can take seconds. Only the files of the
//! configured family are loaded, and a few well-known ones that cover glyphs
//! the family may lack.
use vstd::prelude::*;
use vstd::string::*;
use vstd::utf8::*;

use crate::text::{
    alphanumeric, chars_of, contains_text, find_char, first_index, holds_part, is_alphanumeric,
    join_path, joined_path, lemma_first_index_bound, lemma_split_last, lowercase, lowercase_text,
    opt_text, owned, same, split_at_each, split_text, text_of, texts,
};

verus! {

/// Parts of the file names of fonts that cover box drawing, braille, symbols,
/// CJK and emoji.
pub const FALLBACK_KEYS: [&'static str; 11] = [
    "dejavusansmono",
    "dejavusans",
    "adwaitamono",
    "notosansmono",
    "notosanscjk",
    "notosanssymbols2",
    "notosanssymbols",
    "notosansmath",
    "colrv1",
    "liberationmono",
    "opensymbol",
];

/// What the file name must not hold besides, for each of [`FALLBACK_KEYS`].
pub const FALLBACK_EXCLUDES: [&'static str; 11] = [
    "",
    "",
    "",
    "cjk",
    "",
    "",
    "",
    "",
    "",
    "",
    "",
];

// ---------------------------------------------------------------------------
// The words of a family name
// ---------------------------------------------------------------------------

/// How many letters and digits a text starts with.
pub open spec fn run_len(s: Seq<char>) -> nat
    decreases s.len(),
{
    if s.len() == 0 || !alphanumeric(s[0]) {
        0
    } else {
        1 + run_len(s.drop_first())
    }
}

/// A run of letters and digits is no longer than the text.
pub proof fn lemma_run_len_bound(s: Seq<char>)
    ensures
        run_len(s) <= s.len(),
    decreases s.len(),
{
    if s.len() > 0 && alphanumeric(s[0]) {
        lemma_run_len_bound(s.drop_first());
    }
}

/// The parts of a text between the characters that are no letters or digits.
pub open spec fn tokens(s: Seq<char>) -> Seq<Seq<char>>
    decreases s.len(),
{
    let n = run_len(s) as int;
    proof {
        lemma_run_len_bound(s);
    }
    if n >= s.len() {
        seq![s]
    } else {
        seq![s.take(n)] + tokens(s.skip(n + 1))
    }
}

/// The texts of a list that take at least three bytes.
pub open spec fn long_ones(parts: Seq<Seq<char>>) -> Seq<Seq<char>>
    decreases parts.len(),
{
    if parts.len() == 0 {
        seq![]
    } else {
        let before = long_ones(parts.drop_last());
        if encode_utf8(parts.last()).len() >= 3 {
            before.push(parts.last())
        } else {
            before
        }
    }
}

/// The letters and digits of a text.
pub open spec fn stripped(s: Seq<char>) -> Seq<char>
    decreases s.len(),
{
    if s.len() == 0 {
        seq![]
    } else if alphanumeric(s.last()) {
        stripped(s.drop_last()).push(s.last())
    } else {
        stripped(s.drop_last())
    }
}

/// What the file name of a family is recognized by: every significant word of
/// the name, and the name with all separators taken out.
pub open spec fn keys_of(lower: Seq<char>) -> Seq<Seq<char>> {
    long_ones(tokens(lower)).push(stripped(lower))
}

/// The end of the run of letters and digits at `from`.
fn run_end(v: &Vec<char>, from: usize) -> (r: usize)
    requires
        from <= v@.len(),
    ensures
        from <= r <= v@.len(),
        r - from == run_len(v@.skip(from as int)),
{
    let mut at: usize = from;
    while at < v.len() && is_alphanumeric(v[at])
        invariant
            from <= at <= v@.len(),
            run_len(v@.skip(from as int)) == (at - from) + run_len(v@.skip(at as int)),
        decreases v@.len() - at,
    {
        assert(v@.skip(at as int)[0] == v@[at as int]);
        assert(v@.skip(at as int).drop_first() =~= v@.skip(at + 1));
        at += 1;
    }
    at
}

/// The letters and digits of a text.
fn strip(v: &Vec<char>) -> (r: String)
    ensures
        r@ == stripped(v@),
{
    let mut out = String::new();
    let mut i: usize = 0;
    assert(v@.take(0) =~= Seq::empty());
    assert(out@ =~= stripped(v@.take(0)));
    while i < v.len()
        invariant
            i <= v@.len(),
            out@ == stripped(v@.take(i as int)),
        decreases v@.len() - i,
    {
        proof {
            assert(v@.take(i + 1).drop_last() =~= v@.take(i as int));
            assert(v@.take(i + 1).last() == v@[i as int]);
        }
        if is_alphanumeric(v[i]) {
            out.push(v[i]);
        }
        i += 1;
    }
    assert(v@.take(i as int) =~= v@);
    out
}

/// The long texts of two lists are those of the first, then those of the second.
proof fn lemma_long_sum(a: Seq<Seq<char>>, b: Seq<Seq<char>>)
    ensures
        long_ones(a + b) == long_ones(a) + long_ones(b),
    decreases b.len(),
{
    if b.len() == 0 {
        assert(a + b =~= a);
        assert(long_ones(a) + long_ones(b) =~= long_ones(a));
    } else {
        lemma_long_sum(a, b.drop_last());
        assert((a + b).drop_last() =~= a + b.drop_last());
        assert((a + b).last() == b.last());
        assert(long_ones(a + b) =~= long_ones(a) + long_ones(b));
    }
}

/// What a family is recognized by, given its name in lowercase.
pub fn family_keys_of(lower: &str) -> (r: Vec<String>)
    ensures
        texts(r@) == keys_of(lower@),
{
    let v = chars_of(lower);
    let total: usize = v.len();
    let mut out: Vec<String> = Vec::new();
    let mut from: usize = 0;
    let mut more = true;
    assert(v@.skip(0) =~= v@);
    assert(texts(out@) =~= Seq::<Seq<char>>::empty());
    assert(texts(out@) + long_ones(tokens(v@)) =~= long_ones(tokens(v@)));
    while more
        invariant
            total == v@.len(),
            more ==> from <= total,
            more ==> texts(out@) + long_ones(tokens(v@.skip(from as int))) == long_ones(tokens(v@)),
            !more ==> texts(out@) == long_ones(tokens(v@)),
        decreases
                (if more {
                    total - from + 1
                } else {
                    0
                }),
    {
        let end = run_end(&v, from);
        let token = text_of(&v, from, end);
        let ghost rest = v@.skip(from as int);
        let ghost before = texts(out@);
        let ghost n = end - from;
        assert(token@ =~= rest.take(n));
        let ghost single = seq![token@];
        assert(single.drop_last() =~= Seq::<Seq<char>>::empty());
        assert(long_ones(single) =~= (if encode_utf8(token@).len() >= 3 {
            seq![token@]
        } else {
            Seq::<Seq<char>>::empty()
        })) by {
            assert(long_ones(single.drop_last()) =~= Seq::<Seq<char>>::empty());
            assert(single.last() == token@);
        }
        if token.as_str().as_bytes().len() >= 3 {
            out.push(token);
            assert(texts(out@) =~= before.push(token@));
        }
        assert(texts(out@) =~= before + long_ones(single));
        if end == total {
            more = false;
            assert(rest.take(n) =~= rest);
            assert(tokens(rest) == seq![rest]);
        } else {
            proof {
                let tail = rest.skip(n + 1);
                assert(tail =~= v@.skip(end + 1));
                assert(tokens(rest) == single + tokens(tail));
                lemma_long_sum(single, tokens(tail));
                assert(before + (long_ones(single) + long_ones(tokens(tail))) =~= (before
                    + long_ones(single)) + long_ones(tokens(tail)));
            }
            from = end + 1;
        }
    }
    let ghost keys = texts(out@);
    let norm = strip(&v);
    out.push(norm);
    assert(texts(out@) =~= keys.push(stripped(v@)));
    out
}

/// What the file name of a family is recognized by.
pub fn family_keys(family: &str) -> (r: Vec<String>)
    ensures
        texts(r@) == keys_of(lowercase_text(family@)),
{
    let lower = lowercase(family);
    family_keys_of(lower.as_str())
}

// ---------------------------------------------------------------------------
// Choosing files
// ---------------------------------------------------------------------------

/// Whether a file is one of the well-known fonts.
pub open spec fn is_fallback(lower: Seq<char>) -> bool {
    exists|i: int|
        0 <= i < 11 && holds_part(lower, (#[trigger] FALLBACK_KEYS@[i])@) && (
        FALLBACK_EXCLUDES@[i]@.len() == 0 || !holds_part(lower, FALLBACK_EXCLUDES@[i]@))
}

/// Whether a file belongs to a family. Variants of Nerd Fonts that only share
/// the base name do not.
pub open spec fn is_family(lower: Seq<char>, keys: Seq<Seq<char>>) -> bool {
    (exists|i: int| 0 <= i < keys.len() && holds_part(lower, #[trigger] keys[i])) && !(holds_part(
        lower,
        "nerdfontmono"@,
    ) || holds_part(lower, "nerdfontpropo"@) || holds_part(lower, "nlnerdfont"@))
}

/// Whether a font file should be loaded, given its path in lowercase.
pub fn wants_lowered(lower: &str, keys: &Vec<String>) -> (r: bool)
    ensures
        r == (is_fallback(lower@) || is_family(lower@, texts(keys@))),
{
    let mut i: usize = 0;
    while i < 11
        invariant
            i <= 11,
            forall|k: int|
                0 <= k < i ==> !(holds_part(lower@, (#[trigger] FALLBACK_KEYS@[k])@) && (
                FALLBACK_EXCLUDES@[k]@.len() == 0 || !holds_part(
                    lower@,
                    FALLBACK_EXCLUDES@[k]@,
                ))),
        decreases 11 - i,
    {
        let exclude = FALLBACK_EXCLUDES[i];
        if contains_text(lower, FALLBACK_KEYS[i]) && (exclude.unicode_len() == 0 || !contains_text(
            lower,
            exclude,
        )) {
            assert(holds_part(lower@, FALLBACK_KEYS@[i as int]@));
            return true;
        }
        i += 1;
    }
    let ghost all = texts(keys@);
    let mut k: usize = 0;
    while k < keys.len()
        invariant
            k <= keys@.len(),
            all == texts(keys@),
            !is_fallback(lower@),
            forall|j: int| 0 <= j < k ==> !holds_part(lower@, #[trigger] all[j]),
        decreases keys@.len() - k,
    {
        assert(all[k as int] == keys@[k as int]@);
        if contains_text(lower, keys[k].as_str()) {
            return !(contains_text(lower, "nerdfontmono") || contains_text(lower, "nerdfontpropo")
                || contains_text(lower, "nlnerdfont"));
        }
        k += 1;
    }
    false
}

/// Whether a font file should be loaded for a family.
pub fn wants_font_file(path: &str, keys: &Vec<String>) -> (r: bool)
    ensures
        r == (is_fallback(lowercase_text(path@)) || is_family(
            lowercase_text(path@),
            texts(keys@),
        )),
{
    let lower = lowercase(path);
    wants_lowered(lower.as_str(), keys)
}

/// Whether a file extension is that of a font.
pub fn is_font_extension(ext: &str) -> (r: bool)
    ensures
        r == ({
            let e = lowercase_text(ext@);
            e == "ttf"@ || e == "ttc"@ || e == "otf"@ || e == "otc"@
        }),
{
    let lower = lowercase(ext);
    let ext = lower.as_str();
    same(ext, "ttf") || same(ext, "ttc") || same(ext, "otf") || same(ext, "otc")
}

/// What to do once the chosen files are loaded.
#[derive(Clone, Copy, PartialEq, Eq, Debug, Structural)]
pub enum AfterLoad {
    /// The family is missing: load every font of the system.
    LoadAll,
    /// No monospace family is known: let the configured one be it.
    SetMonospace,
    /// Nothing more to do.
    Keep,
}

/// Decide what to do once the chosen files are loaded.
pub fn after_load(has_family: bool, has_monospace: bool) -> (r: AfterLoad)
    ensures
        r == (if !has_family {
            AfterLoad::LoadAll
        } else if !has_monospace {
            AfterLoad::SetMonospace
        } else {
            AfterLoad::Keep
        }),
{
    if !has_family {
        AfterLoad::LoadAll
    } else if !has_monospace {
        AfterLoad::SetMonospace
    } else {
        AfterLoad::Keep
    }
}

/// The family to draw with: the configured one, or the system's monospace
/// family where it is not known.
pub fn resolved_family(family: &str, known: bool) -> (r: String)
    ensures
        r@ == (if known {
            family@
        } else {
            "monospace"@
        }),
{
    if known {
        owned(family)
    } else {
        owned("monospace")
    }
}

// ---------------------------------------------------------------------------
// Places
// ---------------------------------------------------------------------------

/// The `fonts` directories in a list of directories; empty entries have none.
pub open spec fn fonts_in(dirs: Seq<Seq<char>>) -> Seq<Seq<char>>
    decreases dirs.len(),
{
    if dirs.len() == 0 {
        seq![]
    } else {
        let before = fonts_in(dirs.drop_last());
        if dirs.last().len() > 0 {
            before.push(joined_path(dirs.last(), "fonts"@))
        } else {
            before
        }
    }
}

/// The directories where fonts are installed.
pub open spec fn font_dirs(
    home: Option<Seq<char>>,
    data_home: Option<Seq<char>>,
    data_dirs: Option<Seq<char>>,
) -> Seq<Seq<char>> {
    seq!["/usr/share/fonts"@, "/usr/local/share/fonts"@] + (match home {
        Some(home) => seq![
            joined_path(home, ".fonts"@),
            joined_path(home, ".local/share/fonts"@),
        ],
        None => seq![],
    }) + (match data_home {
        Some(dir) => seq![joined_path(dir, "fonts"@)],
        None => seq![],
    }) + (match data_dirs {
        Some(dirs) => fonts_in(split_at_each(dirs, ':')),
        None => seq![],
    })
}

/// The directories where fonts are installed: the usual ones of a system, those
/// of the user, and those that the data directories name.
pub fn system_font_dirs(
    home: &Option<String>,
    data_home: &Option<String>,
    data_dirs: &Option<String>,
) -> (r: Vec<String>)
    ensures
        texts(r@) == font_dirs(opt_text(*home), opt_text(*data_home), opt_text(*data_dirs)),
{
    let mut out: Vec<String> = Vec::new();
    out.push(owned("/usr/share/fonts"));
    out.push(owned("/usr/local/share/fonts"));
    let ghost first = seq!["/usr/share/fonts"@, "/usr/local/share/fonts"@];
    assert(texts(out@) =~= first);
    if let Some(home) = home {
        out.push(join_path(home.as_str(), ".fonts"));
        out.push(join_path(home.as_str(), ".local/share/fonts"));
    }
    let ghost second = (match opt_text(*home) {
        Some(home) => seq![
            joined_path(home, ".fonts"@),
            joined_path(home, ".local/share/fonts"@),
        ],
        None => seq![],
    });
    assert(texts(out@) =~= first + second);
    if let Some(dir) = data_home {
        out.push(join_path(dir.as_str(), "fonts"));
    }
    let ghost third = (match opt_text(*data_home) {
        Some(dir) => seq![joined_path(dir, "fonts"@)],
        None => seq![],
    });
    assert(texts(out@) =~= first + second + third);
    if let Some(dirs) = data_dirs {
        let parts = split_text(dirs.as_str(), ':');
        let ghost all = texts(parts@);
        let ghost base = first + second + third;
        let mut i: usize = 0;
        assert(all.take(0) =~= Seq::empty());
        assert(texts(out@) =~= base + fonts_in(all.take(0)));
        while i < parts.len()
            invariant
                i <= parts@.len(),
                all == texts(parts@),
                texts(out@) == base + fonts_in(all.take(i as int)),
            decreases parts@.len() - i,
        {
            let ghost before = texts(out@);
            proof {
                assert(all.take(i + 1).drop_last() =~= all.take(i as int));
                assert(all.take(i + 1).last() == parts@[i as int]@);
            }
            if parts[i].as_str().unicode_len() > 0 {
                out.push(join_path(parts[i].as_str(), "fonts"));
                assert(texts(out@) =~= before.push(joined_path(parts@[i as int]@, "fonts"@)));
                assert(texts(out@) =~= base + fonts_in(all.take(i + 1)));
            }
            i += 1;
        }
        assert(all.take(i as int) =~= all);
    } else {
        assert(texts(out@) =~= first + second + third + seq![]);
    }
    out
}

/// A text with a hyphen in place of each underscore.
pub open spec fn hyphenated(s: Seq<char>) -> Seq<char> {
    s.map_values(
        |c: char|
            if c == '_' {
                '-'
            } else {
                c
            },
    )
}

/// The language that a locale setting names: `en_US.UTF-8` names `en-US`.
pub open spec fn language(setting: Seq<char>) -> Seq<char> {
    hyphenated(setting.take(first_index(setting, '.') as int))
}

/// The language that a locale setting names.
fn language_of(setting: &str) -> (r: String)
    ensures
        r@ == language(setting@),
{
    let v = chars_of(setting);
    let end = find_char(&v, 0, '.');
    assert(v@.skip(0) =~= v@);
    let ghost part = v@.take(end as int);
    let mut out = String::new();
    let mut i: usize = 0;
    while i < end
        invariant
            i <= end <= v@.len(),
            part == v@.take(end as int),
            out@ == hyphenated(part.take(i as int)),
        decreases end - i,
    {
        let c = v[i];
        out.push(
            if c == '_' {
                '-'
            } else {
                c
            },
        );
        i += 1;
        assert(out@ =~= hyphenated(part.take(i as int)));
    }
    assert(part.take(i as int) =~= part);
    out
}

/// Whether a locale setting names a language.
pub open spec fn names_language(setting: Option<Seq<char>>) -> bool {
    setting is Some && language(setting->0).len() > 0
}

/// The locale to shape text for, from the settings in the order in which they
/// count; American English where none names a language.
pub fn current_locale(lc_all: &Option<String>, lc_ctype: &Option<String>, lang: &Option<String>) -> (
r: String)
    ensures
        r@ == (if names_language(opt_text(*lc_all)) {
            language(opt_text(*lc_all)->0)
        } else if names_language(opt_text(*lc_ctype)) {
            language(opt_text(*lc_ctype)->0)
        } else if names_language(opt_text(*lang)) {
            language(opt_text(*lang)->0)
        } else {
            "en-US"@
        }),
{
    if let Some(setting) = lc_all {
        let name = language_of(setting.as_str());
        if name.as_str().unicode_len() > 0 {
            return name;
        }
    }
    if let Some(setting) = lc_ctype {
        let name = language_of(setting.as_str());
        if name.as_str().unicode_len() > 0 {
            return name;
        }
    }
    if let Some(setting) = lang {
        let name = language_of(setting.as_str());
        if name.as_str().unicode_len() > 0 {
            return name;
        }
    }
    owned("en-US")
}

// ---------------------------------------------------------------------------
// Laws
// ---------------------------------------------------------------------------

/// Whether a text holds letters and digits only.
pub open spec fn is_run(s: Seq<char>) -> bool {
    forall|i: int| 0 <= i < s.len() ==> alphanumeric(#[trigger] s[i])
}

/// A run of letters and digits goes as far as it goes in a longer text, where
/// another character follows.
proof fn lemma_run_before(a: Seq<char>, gap: char, t: Seq<char>)
    requires
        is_run(a),
        !alphanumeric(gap),
    ensures
        run_len(a + seq![gap] + t) == a.len(),
        run_len(a) == a.len(),
    decreases a.len(),
{
    let all = a + seq![gap] + t;
    if a.len() == 0 {
        assert(all[0] == gap);
    } else {
        assert(all[0] == a[0]);
        let rest = a.drop_first();
        assert forall|i: int| 0 <= i < rest.len() implies alphanumeric(#[trigger] rest[i]) by {
            assert(rest[i] == a[i + 1]);
        }
        assert(all.drop_first() =~= rest + seq![gap] + t);
        lemma_run_before(rest, gap, t);
    }
}

/// A name is cut at every character that is no letter or digit, and nowhere else.
pub proof fn law_names_are_cut_between_words(a: Seq<char>, gap: char, t: Seq<char>)
    requires
        is_run(a),
        !alphanumeric(gap),
    ensures
        tokens(a) == seq![a],
        tokens(a + seq![gap] + t) == seq![a] + tokens(t),
{
    let all = a + seq![gap] + t;
    lemma_run_before(a, gap, t);
    assert(all.take(a.len() as int) =~= a);
    assert(all.skip(a.len() as int + 1) =~= t);
}

/// Taking the separators out of a name leaves its letters and digits, in order.
pub proof fn law_stripping_keeps_letters(s: Seq<char>)
    ensures
        stripped(s) == s.filter(|c: char| alphanumeric(c)),
    decreases s.len(),
{
    reveal(Seq::filter);
    if s.len() > 0 {
        law_stripping_keeps_letters(s.drop_last());
    } else {
        assert(stripped(s) =~= s.filter(|c: char| alphanumeric(c)));
    }
}

/// The significant words of a name are those of three bytes or more, in order.
pub proof fn law_short_words_do_not_count(parts: Seq<Seq<char>>)
    ensures
        long_ones(parts) == parts.filter(|part: Seq<char>| encode_utf8(part).len() >= 3),
    decreases parts.len(),
{
    reveal(Seq::filter);
    if parts.len() > 0 {
        law_short_words_do_not_count(parts.drop_last());
    } else {
        assert(long_ones(parts) =~= parts.filter(
            |part: Seq<char>| encode_utf8(part).len() >= 3,
        ));
    }
}

/// A run of letters and digits has nothing to strip.
proof fn lemma_strip_run(s: Seq<char>, a: Seq<char>)
    requires
        is_run(a),
    ensures
        stripped(s + a) == stripped(s) + a,
    decreases a.len(),
{
    let all = s + a;
    if a.len() == 0 {
        assert(all =~= s);
        assert(stripped(s) + a =~= stripped(s));
    } else {
        let front = a.drop_last();
        assert forall|i: int| 0 <= i < front.len() implies alphanumeric(#[trigger] front[i]) by {
            assert(front[i] == a[i]);
        }
        assert(all.drop_last() =~= s + front);
        assert(all.last() == a[a.len() - 1]);
        lemma_strip_run(s, front);
        assert(stripped(s) + a =~= (stripped(s) + front).push(a.last()));
    }
}

/// A family of two significant words is recognized by either of them and by both
/// without what stands between them.
pub proof fn law_family_of_two_words(a: Seq<char>, gap: char, b: Seq<char>)
    requires
        is_run(a),
        is_run(b),
        !alphanumeric(gap),
        encode_utf8(a).len() >= 3,
        encode_utf8(b).len() >= 3,
    ensures
        keys_of(a + seq![gap] + b) == seq![a, b, a + b],
{
    let all = a + seq![gap] + b;
    law_names_are_cut_between_words(a, gap, b);
    law_names_are_cut_between_words(b, gap, seq![]);
    let parts = tokens(all);
    assert(parts =~= seq![a, b]);
    assert(parts.drop_last() =~= seq![a]);
    assert(parts.drop_last().drop_last() =~= Seq::<Seq<char>>::empty());
    reveal_with_fuel(long_ones, 3);
    assert(long_ones(parts) =~= seq![a, b]);
    lemma_strip_run(a + seq![gap], b);
    assert((a + seq![gap]).drop_last() =~= a);
    assert((a + seq![gap]).last() == gap);
    lemma_strip_run(seq![], a);
    assert(Seq::<char>::empty() + a =~= a);
    assert(stripped(all) =~= a + b);
    assert(keys_of(all) =~= seq![a, b, a + b]);
}

/// The well-known fonts, by parts of their file names. The monospace one of Noto
/// counts only where it is not for Chinese, Japanese and Korean; those have an
/// entry of their own.
pub proof fn law_well_known_fonts(lower: Seq<char>)
    ensures
        holds_part(lower, "dejavusansmono"@) ==> is_fallback(lower),
        holds_part(lower, "dejavusans"@) ==> is_fallback(lower),
        holds_part(lower, "adwaitamono"@) ==> is_fallback(lower),
        holds_part(lower, "notosansmono"@) && !holds_part(lower, "cjk"@) ==> is_fallback(lower),
        holds_part(lower, "notosanscjk"@) ==> is_fallback(lower),
        holds_part(lower, "notosanssymbols2"@) ==> is_fallback(lower),
        holds_part(lower, "notosanssymbols"@) ==> is_fallback(lower),
        holds_part(lower, "notosansmath"@) ==> is_fallback(lower),
        holds_part(lower, "colrv1"@) ==> is_fallback(lower),
        holds_part(lower, "liberationmono"@) ==> is_fallback(lower),
        holds_part(lower, "opensymbol"@) ==> is_fallback(lower),
        is_fallback(lower) ==> holds_part(lower, "dejavusansmono"@) || holds_part(
            lower,
            "dejavusans"@,
        ) || holds_part(lower, "adwaitamono"@) || (holds_part(lower, "notosansmono"@)
            && !holds_part(lower, "cjk"@)) || holds_part(lower, "notosanscjk"@) || holds_part(
            lower,
            "notosanssymbols2"@,
        ) || holds_part(lower, "notosanssymbols"@) || holds_part(lower, "notosansmath"@)
            || holds_part(lower, "colrv1"@) || holds_part(lower, "liberationmono"@) || holds_part(
            lower,
            "opensymbol"@,
        ),
{
    reveal_strlit("");
    reveal_strlit("cjk");
    assert(""@.len() == 0 && "cjk"@.len() == 3);
    assert(FALLBACK_KEYS@[0]@ == "dejavusansmono"@ && FALLBACK_EXCLUDES@[0]@ == ""@);
    assert(FALLBACK_KEYS@[1]@ == "dejavusans"@ && FALLBACK_EXCLUDES@[1]@ == ""@);
    assert(FALLBACK_KEYS@[2]@ == "adwaitamono"@ && FALLBACK_EXCLUDES@[2]@ == ""@);
    assert(FALLBACK_KEYS@[3]@ == "notosansmono"@ && FALLBACK_EXCLUDES@[3]@ == "cjk"@);
    assert(FALLBACK_KEYS@[4]@ == "notosanscjk"@ && FALLBACK_EXCLUDES@[4]@ == ""@);
    assert(FALLBACK_KEYS@[5]@ == "notosanssymbols2"@ && FALLBACK_EXCLUDES@[5]@ == ""@);
    assert(FALLBACK_KEYS@[6]@ == "notosanssymbols"@ && FALLBACK_EXCLUDES@[6]@ == ""@);
    assert(FALLBACK_KEYS@[7]@ == "notosansmath"@ && FALLBACK_EXCLUDES@[7]@ == ""@);
    assert(FALLBACK_KEYS@[8]@ == "colrv1"@ && FALLBACK_EXCLUDES@[8]@ == ""@);
    assert(FALLBACK_KEYS@[9]@ == "liberationmono"@ && FALLBACK_EXCLUDES@[9]@ == ""@);
    assert(FALLBACK_KEYS@[10]@ == "opensymbol"@ && FALLBACK_EXCLUDES@[10]@ == ""@);
}

/// A file belongs to a family where its name holds a word of it, unless it is one
/// of the variants that only share the name.
pub proof fn law_files_of_a_family(lower: Seq<char>, keys: Seq<Seq<char>>, i: int)
    requires
        0 <= i < keys.len(),
    ensures
        ({
            let variant = holds_part(lower, "nerdfontmono"@) || holds_part(lower, "nerdfontpropo"@)
                || holds_part(lower, "nlnerdfont"@);
            &&& holds_part(lower, keys[i]) && !variant ==> is_family(lower, keys)
            &&& variant ==> !is_family(lower, keys)
        }),
        (forall|k: int| 0 <= k < keys.len() ==> !holds_part(lower, #[trigger] keys[k]))
            ==> !is_family(lower, keys),
{
}

/// Fonts are looked for in the directories of the system, then in those of the
/// user's home, then in that of the user's data, then in those of the shared
/// data, in this order.
pub proof fn law_font_directories(home: Seq<char>, data: Seq<char>, a: Seq<char>, b: Seq<char>)
    requires
        home.len() > 0 && home.last() != '/',
        data.len() > 0 && data.last() != '/',
        a.len() > 0 && a.last() != '/' && !a.contains(':'),
        b.len() > 0 && b.last() != '/' && !b.contains(':'),
    ensures
        font_dirs(None, None, None) == seq!["/usr/share/fonts"@, "/usr/local/share/fonts"@],
        font_dirs(Some(home), Some(data), Some(a + seq![':'] + b)) == seq![
            "/usr/share/fonts"@,
            "/usr/local/share/fonts"@,
            home + "/.fonts"@,
            home + "/.local/share/fonts"@,
            data + "/fonts"@,
            a + "/fonts"@,
            b + "/fonts"@,
        ],
{
    reveal_strlit(".fonts");
    reveal_strlit("/.fonts");
    reveal_strlit(".local/share/fonts");
    reveal_strlit("/.local/share/fonts");
    reveal_strlit("fonts");
    reveal_strlit("/fonts");
    assert(joined_path(home, ".fonts"@) =~= home + "/.fonts"@);
    assert(joined_path(home, ".local/share/fonts"@) =~= home + "/.local/share/fonts"@);
    assert(joined_path(data, "fonts"@) =~= data + "/fonts"@);
    assert(joined_path(a, "fonts"@) =~= a + "/fonts"@);
    assert(joined_path(b, "fonts"@) =~= b + "/fonts"@);
    lemma_split_last(a, ':', b);
    lemma_first_index_bound(a, ':');
    assert(split_at_each(a, ':') == seq![a]) by {
        if first_index(a, ':') < a.len() {
            assert(a.contains(a[first_index(a, ':') as int]));
        }
    }
    let parts = split_at_each(a + seq![':'] + b, ':');
    assert(parts =~= seq![a, b]);
    assert(parts.drop_last() =~= seq![a]);
    assert(parts.drop_last().drop_last() =~= Seq::<Seq<char>>::empty());
    reveal_with_fuel(fonts_in, 3);
    assert(fonts_in(parts) =~= seq![a + "/fonts"@, b + "/fonts"@]);
    assert(font_dirs(None, None, None) =~= seq!["/usr/share/fonts"@, "/usr/local/share/fonts"@]);
    assert(font_dirs(Some(home), Some(data), Some(a + seq![':'] + b)) =~= seq![
        "/usr/share/fonts"@,
        "/usr/local/share/fonts"@,
        home + "/.fonts"@,
        home + "/.local/share/fonts"@,
        data + "/fonts"@,
        a + "/fonts"@,
        b + "/fonts"@,
    ]);
}

/// An entry of the data directories adds its `fonts` directory behind the others,
/// and an empty one adds nothing.
pub proof fn law_data_directories_add_up(dirs: Seq<Seq<char>>, last: Seq<char>)
    ensures
        fonts_in(seq![]) == Seq::<Seq<char>>::empty(),
        last.len() == 0 ==> fonts_in(dirs.push(last)) == fonts_in(dirs),
        last.len() > 0 ==> fonts_in(dirs.push(last)) == fonts_in(dirs).push(
            joined_path(last, "fonts"@),
        ),
{
    assert(dirs.push(last).drop_last() =~= dirs);
}

/// A locale names its language up to the first point, with a hyphen for each
/// underscore and every other character as it is.
pub proof fn law_language_of_locale(a: Seq<char>, b: Seq<char>, i: int)
    requires
        !a.contains('.'),
        0 <= i < a.len(),
    ensures
        language(a) == language(a + seq!['.'] + b),
        language(a).len() == a.len(),
        language(a)[i] == (if a[i] == '_' {
            '-'
        } else {
            a[i]
        }),
{
    let all = a + seq!['.'] + b;
    lemma_first_index_bound(a, '.');
    lemma_first_index_bound(all, '.');
    lemma_point(a, b);
    assert(a.take(a.len() as int) =~= a);
    assert(all.take(a.len() as int) =~= a);
}

/// The first point of a text with none in front of it.
proof fn lemma_point(a: Seq<char>, b: Seq<char>)
    requires
        !a.contains('.'),
    ensures
        first_index(a, '.') == a.len(),
        first_index(a + seq!['.'] + b, '.') == a.len(),
    decreases a.len(),
{
    let all = a + seq!['.'] + b;
    if a.len() == 0 {
        assert(all[0] == '.');
    } else {
        let rest = a.drop_first();
        assert(a.contains(a[0]));
        assert(all[0] == a[0]);
        assert(all.drop_first() =~= rest + seq!['.'] + b);
        assert(!rest.contains('.')) by {
            if rest.contains('.') {
                let k = choose|k: int| 0 <= k < rest.len() && rest[k] == '.';
                assert(a[k + 1] == '.');
            }
        }
        lemma_point(rest, b);
    }
}

} // verus!

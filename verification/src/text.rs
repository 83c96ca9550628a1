//! Text helpers: words, trimming, case folding, numerals and paths.
//!
//! Text is modelled as a sequence of characters throughout; bytes appear only
//! where a terminal or a file wants them, as the UTF-8 form of a text.
use vstd::prelude::*;
use vstd::string::*;
use vstd::utf8::*;

verus! {

// ---------------------------------------------------------------------------
// What is taken from the standard library
// ---------------------------------------------------------------------------

/// `str`'s equality compares the two texts character by character.
pub assume_specification[ <str as PartialEq>::eq ](a: &str, b: &str) -> (r: bool)
    ensures
        r == (a@ == b@),
;

/// `String::push` appends one character.
pub assume_specification[ String::push ](s: &mut String, c: char)
    ensures
        final(s)@ == old(s)@.push(c),
;

/// `String::pop` takes the last character off; an empty string stays as it is
/// and gives `None`.
pub assume_specification[ String::pop ](s: &mut String) -> (r: Option<char>)
    ensures
        old(s)@.len() == 0 ==> r is None && final(s)@ == old(s)@,
        old(s)@.len() > 0 ==> r == Some(old(s)@.last()) && final(s)@ == old(s)@.drop_last(),
;

/// `String::into_bytes` gives the UTF-8 form of the text.
pub assume_specification[ String::into_bytes ](s: String) -> (r: Vec<u8>)
    ensures
        r@ == encode_utf8(s@),
;

/// The error of `String::from_utf8`; nothing in it is looked at.
#[verifier::external_type_specification]
#[verifier::external_body]
pub struct ExFromUtf8Error(std::string::FromUtf8Error);

/// `String::from_utf8` succeeds exactly on valid UTF-8, and the text it gives
/// has the given bytes as its UTF-8 form.
pub assume_specification[ String::from_utf8 ](v: Vec<u8>) -> (r: Result<String, std::string::FromUtf8Error>)
    ensures
        r is Ok <==> valid_utf8(v@),
        r is Ok ==> encode_utf8(r->Ok_0@) == v@,
;

/// The text that `String::from_utf8_lossy` makes of bytes that are not valid
/// UTF-8.
pub uninterp spec fn lossy_text(bytes: Seq<u8>) -> Seq<char>;

/// `String::from_utf8_lossy`, as an owned text. Bytes that are valid UTF-8 come
/// out as the text they encode; how many replacement characters stand for an
/// invalid run is left to the standard library.
#[verifier::external_body]
pub(crate) fn utf8_lossy(bytes: &[u8]) -> (r: String)
    ensures
        valid_utf8(bytes@) ==> r@ == decode_utf8(bytes@),
        !valid_utf8(bytes@) ==> r@ == lossy_text(bytes@),
{
    String::from_utf8_lossy(bytes).into_owned()
}

/// The text that bytes stand for.
pub open spec fn readable_text(bytes: Seq<u8>) -> Seq<char> {
    if valid_utf8(bytes) {
        decode_utf8(bytes)
    } else {
        lossy_text(bytes)
    }
}

/// The text that a text's own bytes stand for is the text.
pub proof fn lemma_readable_encoded(text: Seq<char>)
    ensures
        readable_text(encode_utf8(text)) == text,
{
    encode_utf8_valid_utf8(text);
    encode_utf8_decode_utf8(text);
}

/// The bytes of two texts, one behind the other, are those of the whole.
pub proof fn lemma_encode_sum(a: Seq<char>, b: Seq<char>)
    ensures
        encode_utf8(a + b) == encode_utf8(a) + encode_utf8(b),
    decreases a.len(),
{
    if a.len() == 0 {
        assert(a + b =~= b);
        assert(encode_utf8(a) + encode_utf8(b) =~= encode_utf8(b));
    } else {
        lemma_encode_sum(a.drop_first(), b);
        assert((a + b).drop_first() =~= a.drop_first() + b);
        assert(encode_utf8(a + b) =~= encode_utf8(a) + encode_utf8(b));
    }
}

/// An ASCII byte in the bytes of a text stands for a character of the text.
pub proof fn lemma_ascii_byte(text: Seq<char>, c: char)
    requires
        c as u32 <= 0x7f,
        !text.contains(c),
    ensures
        !encode_utf8(text).contains(c as u8),
    decreases text.len(),
{
    if text.len() > 0 {
        let rest = text.drop_first();
        let first = text[0];
        assert(text.contains(first));
        assert(!rest.contains(c)) by {
            if rest.contains(c) {
                let i = choose|i: int| 0 <= i < rest.len() && rest[i] == c;
                assert(text[i + 1] == c);
            }
        }
        lemma_ascii_byte(rest, c);
        let u = first as u32;
        char_is_scalar(first);
        let head = encode_scalar(u);
        if has_width_1_encoding(u) {
            assert(leading_byte_width_1(u) == u) by (bit_vector)
                requires
                    u <= 0x7f,
            ;
            assert(head =~= seq![leading_byte_width_1(u)]);
        } else {
            assert(leading_byte_width_2(u) >= 0x80u8) by (bit_vector);
            assert(leading_byte_width_3(u) >= 0x80u8) by (bit_vector);
            assert(leading_byte_width_4(u) >= 0x80u8) by (bit_vector);
            assert(last_continuation_byte(u) >= 0x80u8) by (bit_vector);
            assert(second_last_continuation_byte(u) >= 0x80u8) by (bit_vector);
            assert(third_last_continuation_byte(u) >= 0x80u8) by (bit_vector);
        }
        let code = c as u32;
        assert(c as u8 == code);
        char_u32_cast(c, code);
        char_u32_cast(first, u);
        assert(u != code);
        assert forall|i: int| 0 <= i < head.len() implies #[trigger] head[i] != c as u8 by {}
        assert(encode_utf8(text) == head + encode_utf8(rest));
    }
}

/// The text that `str::to_lowercase` makes of one that is not all ASCII.
pub uninterp spec fn unicode_lower_text(s: Seq<char>) -> Seq<char>;

/// `str::to_lowercase`: ASCII letters `A` to `Z` become `a` to `z` in a text
/// that is all ASCII; any other text is lowercased by the Unicode tables of the
/// standard library.
#[verifier::external_body]
pub(crate) fn lowercase(s: &str) -> (r: String)
    ensures
        is_ascii_chars(s@) ==> r@ == ascii_lower_text(s@),
        !is_ascii_chars(s@) ==> r@ == unicode_lower_text(s@),
{
    s.to_lowercase()
}

/// The lowercase form of a text.
pub open spec fn lowercase_text(s: Seq<char>) -> Seq<char> {
    if is_ascii_chars(s) {
        ascii_lower_text(s)
    } else {
        unicode_lower_text(s)
    }
}

/// The first character of the lowercase form of a character beyond ASCII.
pub uninterp spec fn unicode_lower_first(c: char) -> char;

/// The first character that `char::to_lowercase` gives; it always gives at
/// least one. An ASCII letter `A` to `Z` becomes `a` to `z`, any other ASCII
/// character stays as it is, and the rest goes by the Unicode tables.
#[verifier::external_body]
pub(crate) fn lowercase_char(c: char) -> (r: char)
    ensures
        c as u32 <= 0x7f ==> r == ascii_lower(c),
        c as u32 > 0x7f ==> r == unicode_lower_first(c),
{
    c.to_lowercase().next().unwrap()
}

/// The first character of a character's lowercase form.
pub open spec fn lowercase_first(c: char) -> char {
    if c as u32 <= 0x7f {
        ascii_lower(c)
    } else {
        unicode_lower_first(c)
    }
}

/// Whether a character beyond ASCII is alphanumeric by the Unicode tables.
pub uninterp spec fn unicode_alphanumeric(c: char) -> bool;

/// `char::is_alphanumeric`: true of the ASCII letters and digits, false of the
/// other ASCII characters, and by the Unicode tables beyond ASCII.
#[verifier::external_body]
pub(crate) fn is_alphanumeric(c: char) -> (r: bool)
    ensures
        c as u32 <= 0x7f ==> r == ascii_alphanumeric(c),
        c as u32 > 0x7f ==> r == unicode_alphanumeric(c),
{
    c.is_alphanumeric()
}

/// The ASCII letters and digits.
pub open spec fn ascii_alphanumeric(c: char) -> bool {
    'a' <= c <= 'z' || 'A' <= c <= 'Z' || '0' <= c <= '9'
}

/// Whether a character is a letter or a digit.
pub open spec fn alphanumeric(c: char) -> bool {
    if c as u32 <= 0x7f {
        ascii_alphanumeric(c)
    } else {
        unicode_alphanumeric(c)
    }
}

// ---------------------------------------------------------------------------
// Whole texts
// ---------------------------------------------------------------------------

/// The text of an optional string.
pub open spec fn opt_text(s: Option<String>) -> Option<Seq<char>> {
    match s {
        Some(s) => Some(s@),
        None => None,
    }
}

/// The texts that a list of strings holds.
pub open spec fn texts(v: Seq<String>) -> Seq<Seq<char>> {
    Seq::new(v.len(), |i: int| v[i]@)
}

/// Whether two texts are the same.
pub fn same(a: &str, b: &str) -> (r: bool)
    ensures
        r == (a@ == b@),
{
    *a == *b
}

/// The characters of a text.
pub fn chars_of(s: &str) -> (r: Vec<char>)
    ensures
        r@ == s@,
{
    let mut v: Vec<char> = Vec::new();
    for c in it: s.chars()
        invariant
            v@ == it.seq().take(it.index() as int),
            it.seq() == s@,
    {
        v.push(c);
    }
    v
}

/// The text made of `v[from..to]`.
pub fn text_of(v: &Vec<char>, from: usize, to: usize) -> (r: String)
    requires
        from <= to <= v@.len(),
    ensures
        r@ == v@.subrange(from as int, to as int),
{
    let mut s = String::new();
    let mut i: usize = from;
    while i < to
        invariant
            from <= i <= to <= v@.len(),
            s@ == v@.subrange(from as int, i as int),
        decreases to - i,
    {
        s.push(v[i]);
        i += 1;
        assert(v@.subrange(from as int, i as int) == v@.subrange(from as int, i - 1).push(v@[i - 1]));
    }
    s
}

/// An owned copy of a text.
pub fn owned(s: &str) -> (r: String)
    ensures
        r@ == s@,
{
    s.to_owned()
}

/// Whether `list` holds the text `s`.
pub fn list_has(list: &Vec<String>, s: &str) -> (r: bool)
    ensures
        r == texts(list@).contains(s@),
{
    let mut i: usize = 0;
    while i < list.len()
        invariant
            i <= list@.len(),
            forall|j: int| 0 <= j < i ==> list@[j]@ != s@,
        decreases list@.len() - i,
    {
        if same(list[i].as_str(), s) {
            assert(texts(list@)[i as int] == s@);
            return true;
        }
        i += 1;
    }
    false
}

/// Whether `s` begins with `prefix`.
pub open spec fn begins_with(s: Seq<char>, prefix: Seq<char>) -> bool {
    prefix.len() <= s.len() && s.take(prefix.len() as int) == prefix
}

/// Whether `s` begins with `prefix`.
pub fn starts_with(s: &str, prefix: &str) -> (r: bool)
    ensures
        r == begins_with(s@, prefix@),
{
    let a = chars_of(s);
    let p = chars_of(prefix);
    if p.len() > a.len() {
        return false;
    }
    let mut i: usize = 0;
    while i < p.len()
        invariant
            i <= p@.len() <= a@.len(),
            a@ == s@,
            p@ == prefix@,
            forall|j: int| 0 <= j < i ==> a@[j] == p@[j],
        decreases p@.len() - i,
    {
        if a[i] != p[i] {
            assert(s@.take(prefix@.len() as int)[i as int] != prefix@[i as int]);
            return false;
        }
        i += 1;
    }
    assert(s@.take(prefix@.len() as int) =~= prefix@);
    true
}

/// Whether `part` stands in `s` at the position `i`.
pub open spec fn part_at(s: Seq<char>, part: Seq<char>, i: int) -> bool {
    0 <= i <= s.len() - part.len() && s.subrange(i, i + part.len()) == part
}

/// Whether `part` stands somewhere inside `s`.
pub open spec fn holds_part(s: Seq<char>, part: Seq<char>) -> bool {
    exists|i: int| part_at(s, part, i)
}

/// Whether `part` stands somewhere inside `s`.
pub fn contains_text(s: &str, part: &str) -> (r: bool)
    ensures
        r == holds_part(s@, part@),
{
    let a = chars_of(s);
    let p = chars_of(part);
    if p.len() > a.len() {
        return false;
    }
    let total: usize = a.len();
    let last: usize = total - p.len();
    let mut i: usize = 0;
    while i <= last
        invariant
            i <= last + 1,
            total == a@.len(),
            last == a@.len() - p@.len(),
            a@ == s@,
            p@ == part@,
            forall|k: int| 0 <= k < i ==> !part_at(s@, part@, k),
        decreases last + 1 - i,
    {
        let mut j: usize = 0;
        while j < p.len() && a[i + j] == p[j]
            invariant
                i <= last,
                total == a@.len(),
                last == a@.len() - p@.len(),
                j <= p@.len(),
                forall|k: int| 0 <= k < j ==> a@[i + k] == p@[k],
            decreases p@.len() - j,
        {
            j += 1;
        }
        if j == p.len() {
            assert(s@.subrange(i as int, i + part@.len()) =~= part@);
            assert(part_at(s@, part@, i as int));
            return true;
        }
        assert(s@.subrange(i as int, i + part@.len())[j as int] != part@[j as int]);
        if i == last {
            return false;
        }
        i += 1;
    }
    false
}

// ---------------------------------------------------------------------------
// White space and words
// ---------------------------------------------------------------------------

/// The characters with Unicode's White_Space property.
pub open spec fn is_white(c: char) -> bool {
    let n = c as u32;
    ||| 0x09 <= n <= 0x0d
    ||| n == 0x20
    ||| n == 0x85
    ||| n == 0xa0
    ||| n == 0x1680
    ||| 0x2000 <= n <= 0x200a
    ||| n == 0x2028
    ||| n == 0x2029
    ||| n == 0x202f
    ||| n == 0x205f
    ||| n == 0x3000
}

/// Whether a character is white space.
pub fn white(c: char) -> (r: bool)
    ensures
        r == is_white(c),
{
    let n: u32 = c as u32;
    (0x09 <= n && n <= 0x0d) || n == 0x20 || n == 0x85 || n == 0xa0 || n == 0x1680 || (0x2000 <= n
        && n <= 0x200a) || n == 0x2028 || n == 0x2029 || n == 0x202f || n == 0x205f || n == 0x3000
}

/// How many characters at the start of `s` are not white space.
pub open spec fn word_len(s: Seq<char>) -> nat
    decreases s.len(),
{
    if s.len() == 0 || is_white(s[0]) {
        0
    } else {
        1 + word_len(s.drop_first())
    }
}

/// A word is no longer than the text it starts.
pub proof fn lemma_word_len_bound(s: Seq<char>)
    ensures
        word_len(s) <= s.len(),
    decreases s.len(),
{
    if s.len() > 0 && !is_white(s[0]) {
        lemma_word_len_bound(s.drop_first());
    }
}

/// The words of a text: its maximal runs of characters that are not white
/// space, in order.
pub open spec fn words(s: Seq<char>) -> Seq<Seq<char>>
    decreases s.len(),
{
    if s.len() == 0 {
        seq![]
    } else if is_white(s[0]) {
        words(s.drop_first())
    } else {
        proof {
            lemma_word_len_bound(s);
        }
        seq![s.take(word_len(s) as int)] + words(s.skip(word_len(s) as int))
    }
}

/// A word at the start of a text goes as far in a longer text, where white space
/// follows.
proof fn lemma_word_len_before_white(s: Seq<char>, w: char, t: Seq<char>)
    requires
        is_white(w),
    ensures
        word_len(s + seq![w] + t) == word_len(s),
    decreases s.len(),
{
    let all = s + seq![w] + t;
    if s.len() == 0 {
        assert(all[0] == w);
    } else {
        assert(all[0] == s[0]);
        assert(all.drop_first() =~= s.drop_first() + seq![w] + t);
        lemma_word_len_before_white(s.drop_first(), w, t);
    }
}

/// White space between two texts parts their words.
pub proof fn lemma_words_split(s: Seq<char>, w: char, t: Seq<char>)
    requires
        is_white(w),
    ensures
        words(s + seq![w] + t) == words(s) + words(t),
    decreases s.len(),
{
    let all = s + seq![w] + t;
    if s.len() == 0 {
        assert(all[0] == w);
        assert(all.drop_first() =~= t);
        assert(words(s) + words(t) =~= words(t));
    } else if is_white(s[0]) {
        assert(all[0] == s[0]);
        assert(all.drop_first() =~= s.drop_first() + seq![w] + t);
        lemma_words_split(s.drop_first(), w, t);
    } else {
        assert(all[0] == s[0]);
        lemma_word_len_before_white(s, w, t);
        lemma_word_len_bound(s);
        let n = word_len(s) as int;
        assert(all.take(n) =~= s.take(n));
        assert(all.skip(n) =~= s.skip(n) + seq![w] + t);
        lemma_words_split(s.skip(n), w, t);
        assert(seq![s.take(n)] + (words(s.skip(n)) + words(t)) =~= (seq![s.take(n)] + words(
            s.skip(n),
        )) + words(t));
    }
}

/// Whether a text is a single word.
pub open spec fn is_word(s: Seq<char>) -> bool {
    s.len() > 0 && forall|i: int| 0 <= i < s.len() ==> !is_white(#[trigger] s[i])
}

/// A word is the only word in it.
pub proof fn lemma_word_alone(s: Seq<char>)
    requires
        is_word(s),
    ensures
        words(s) == seq![s],
{
    lemma_word_len_full(s);
    assert(s.take(s.len() as int) =~= s);
    assert(s.skip(s.len() as int) =~= seq![]);
    assert(words(seq![]) =~= seq![]);
    assert(seq![s] + Seq::<Seq<char>>::empty() =~= seq![s]);
}

/// A text without white space starts with a word as long as it is.
proof fn lemma_word_len_full(s: Seq<char>)
    requires
        forall|i: int| 0 <= i < s.len() ==> !is_white(#[trigger] s[i]),
    ensures
        word_len(s) == s.len(),
    decreases s.len(),
{
    if s.len() > 0 {
        assert forall|i: int| 0 <= i < s.drop_first().len() implies !is_white(
            #[trigger] s.drop_first()[i],
        ) by {
            assert(s.drop_first()[i] == s[i + 1]);
        }
        assert(!is_white(s[0]));
        lemma_word_len_full(s.drop_first());
    }
}

/// The index of the first white space at or after `from`, or the length.
fn word_end(v: &Vec<char>, from: usize) -> (r: usize)
    requires
        from <= v@.len(),
    ensures
        from <= r <= v@.len(),
        r - from == word_len(v@.skip(from as int)),
{
    let mut at: usize = from;
    while at < v.len() && !white(v[at])
        invariant
            from <= at <= v@.len(),
            word_len(v@.skip(from as int)) == (at - from) + word_len(v@.skip(at as int)),
        decreases v@.len() - at,
    {
        assert(v@.skip(at as int)[0] == v@[at as int]);
        assert(v@.skip(at as int).drop_first() =~= v@.skip(at + 1));
        at += 1;
    }
    at
}

/// The words of a text.
pub fn words_of(s: &str) -> (r: Vec<String>)
    ensures
        texts(r@) == words(s@),
{
    let v = chars_of(s);
    let mut out: Vec<String> = Vec::new();
    let mut i: usize = 0;
    assert(v@.skip(0) =~= v@);
    assert(texts(out@) =~= Seq::<Seq<char>>::empty());
    while i < v.len()
        invariant
            i <= v@.len(),
            texts(out@) + words(v@.skip(i as int)) == words(v@),
        decreases v@.len() - i,
    {
        let ghost rest = v@.skip(i as int);
        if white(v[i]) {
            assert(rest.drop_first() =~= v@.skip(i + 1));
            i += 1;
        } else {
            let j = word_end(&v, i);
            let w = text_of(&v, i, j);
            let ghost before = texts(out@);
            assert(w@ =~= rest.take(j - i));
            assert(rest.skip(j - i) =~= v@.skip(j as int));
            out.push(w);
            assert(texts(out@) =~= before.push(w@));
            assert(before + (seq![w@] + words(v@.skip(j as int))) =~= before.push(w@) + words(
                v@.skip(j as int),
            ));
            i = j;
        }
    }
    assert(v@.skip(i as int) =~= Seq::<char>::empty());
    assert(texts(out@) + Seq::<Seq<char>>::empty() =~= texts(out@));
    out
}

/// `s` without the white space at its start.
pub open spec fn trim_left(s: Seq<char>) -> Seq<char>
    decreases s.len(),
{
    if s.len() > 0 && is_white(s[0]) {
        trim_left(s.drop_first())
    } else {
        s
    }
}

/// `s` without the white space at its end.
pub open spec fn trim_right(s: Seq<char>) -> Seq<char>
    decreases s.len(),
{
    if s.len() > 0 && is_white(s.last()) {
        trim_right(s.drop_last())
    } else {
        s
    }
}

/// `s` without the white space at both ends.
pub open spec fn trimmed(s: Seq<char>) -> Seq<char> {
    trim_right(trim_left(s))
}

/// Trimming keeps the words of a text.
pub proof fn lemma_trimmed_words(s: Seq<char>)
    ensures
        words(trimmed(s)) == words(s),
{
    lemma_trim_left_words(s);
    lemma_trim_right_words(trim_left(s));
}

/// Trimming the start of a text keeps its words.
proof fn lemma_trim_left_words(s: Seq<char>)
    ensures
        words(trim_left(s)) == words(s),
    decreases s.len(),
{
    if s.len() > 0 && is_white(s[0]) {
        lemma_trim_left_words(s.drop_first());
    }
}

/// Trimming the end of a text keeps its words.
proof fn lemma_trim_right_words(s: Seq<char>)
    ensures
        words(trim_right(s)) == words(s),
    decreases s.len(),
{
    if s.len() > 0 && is_white(s.last()) {
        lemma_trim_right_words(s.drop_last());
        lemma_words_split(s.drop_last(), s.last(), seq![]);
        assert(s.drop_last() + seq![s.last()] + Seq::<char>::empty() =~= s);
        assert(words(seq![]) =~= seq![]);
        assert(words(s.drop_last()) + Seq::<Seq<char>>::empty() =~= words(s.drop_last()));
    }
}

/// Trimming a text that was trimmed changes nothing.
pub proof fn lemma_trimmed_again(s: Seq<char>)
    ensures
        trimmed(trimmed(s)) == trimmed(s),
{
    let left = trim_left(s);
    lemma_trim_left_start(s);
    lemma_trim_right_ends(left);
    let t = trim_right(left);
    if t.len() > 0 {
        assert(t[0] == left[0]);
    }
}

/// What is left at the start after trimming is not white space.
proof fn lemma_trim_left_start(s: Seq<char>)
    ensures
        trim_left(s).len() > 0 ==> !is_white(trim_left(s)[0]),
    decreases s.len(),
{
    if s.len() > 0 && is_white(s[0]) {
        lemma_trim_left_start(s.drop_first());
    }
}

/// What is left after trimming the end is a start of the text whose last
/// character is not white space.
proof fn lemma_trim_right_ends(s: Seq<char>)
    ensures
        trim_right(s).len() <= s.len(),
        trim_right(s) == s.take(trim_right(s).len() as int),
        trim_right(s).len() > 0 ==> !is_white(trim_right(s).last()),
    decreases s.len(),
{
    if s.len() > 0 && is_white(s.last()) {
        lemma_trim_right_ends(s.drop_last());
        let n = trim_right(s).len() as int;
        assert(s.drop_last().take(n) =~= s.take(n));
    } else {
        assert(s.take(s.len() as int) =~= s);
    }
}

/// `s` without the white space at its start.
pub fn trim_start(s: &str) -> (r: String)
    ensures
        r@ == trim_left(s@),
{
    let v = chars_of(s);
    let mut i: usize = 0;
    assert(v@.skip(0) =~= v@);
    while i < v.len() && white(v[i])
        invariant
            i <= v@.len(),
            trim_left(v@.skip(i as int)) == trim_left(v@),
        decreases v@.len() - i,
    {
        assert(v@.skip(i as int).drop_first() =~= v@.skip(i + 1));
        i += 1;
    }
    assert(v@.skip(i as int) =~= v@.subrange(i as int, v@.len() as int));
    text_of(&v, i, v.len())
}

/// `s` without the white space at both ends.
pub fn trim(s: &str) -> (r: String)
    ensures
        r@ == trimmed(s@),
{
    let t = trim_start(s);
    let v = chars_of(t.as_str());
    let mut n: usize = v.len();
    assert(v@.take(n as int) =~= v@);
    while n > 0 && white(v[n - 1])
        invariant
            n <= v@.len(),
            trim_right(v@.take(n as int)) == trim_right(v@),
        decreases n,
    {
        assert(v@.take(n as int).drop_last() =~= v@.take(n - 1));
        n -= 1;
    }
    assert(v@.take(n as int) =~= v@.subrange(0, n as int));
    text_of(&v, 0, n)
}

// ---------------------------------------------------------------------------
// Splitting at a separator
// ---------------------------------------------------------------------------

/// The index of the first `sep` in `s`, or the length when there is none.
pub open spec fn first_index(s: Seq<char>, sep: char) -> nat
    decreases s.len(),
{
    if s.len() == 0 || s[0] == sep {
        0
    } else {
        1 + first_index(s.drop_first(), sep)
    }
}

/// The first separator is no further than the end.
pub proof fn lemma_first_index_bound(s: Seq<char>, sep: char)
    ensures
        first_index(s, sep) <= s.len(),
        first_index(s, sep) < s.len() ==> s[first_index(s, sep) as int] == sep,
    decreases s.len(),
{
    if s.len() > 0 && s[0] != sep {
        lemma_first_index_bound(s.drop_first(), sep);
    }
}

/// The pieces of `s` between the separators: one more than there are
/// separators, empty ones included.
pub open spec fn split_at_each(s: Seq<char>, sep: char) -> Seq<Seq<char>>
    decreases s.len(),
{
    let n = first_index(s, sep);
    proof {
        lemma_first_index_bound(s, sep);
    }
    if n >= s.len() {
        seq![s]
    } else {
        seq![s.take(n as int)] + split_at_each(s.skip(n as int + 1), sep)
    }
}

/// What follows a separator does not move the first one.
proof fn lemma_first_index_before(s: Seq<char>, sep: char, t: Seq<char>)
    ensures
        first_index(s + seq![sep] + t, sep) == first_index(s, sep),
    decreases s.len(),
{
    let all = s + seq![sep] + t;
    if s.len() == 0 {
        assert(all[0] == sep);
    } else {
        assert(all[0] == s[0]);
        assert(all.drop_first() =~= s.drop_first() + seq![sep] + t);
        lemma_first_index_before(s.drop_first(), sep, t);
    }
}

/// A text without a separator has its first one at the end.
proof fn lemma_first_index_none(s: Seq<char>, sep: char)
    requires
        !s.contains(sep),
    ensures
        first_index(s, sep) == s.len(),
{
    lemma_first_index_bound(s, sep);
}

/// A text behind a last separator is the last piece.
pub proof fn lemma_split_last(s: Seq<char>, sep: char, t: Seq<char>)
    requires
        !t.contains(sep),
    ensures
        split_at_each(s + seq![sep] + t, sep) == split_at_each(s, sep).push(t),
    decreases s.len(),
{
    let all = s + seq![sep] + t;
    let n = first_index(s, sep) as int;
    lemma_first_index_before(s, sep, t);
    lemma_first_index_bound(s, sep);
    if n >= s.len() {
        lemma_first_index_none(t, sep);
        assert(all.take(n) =~= s);
        assert(all.skip(n + 1) =~= t);
        assert(split_at_each(s, sep) == seq![s]);
        assert(split_at_each(t, sep) == seq![t]);
        assert(split_at_each(all, sep) == seq![s] + split_at_each(t, sep));
        assert(seq![s] + seq![t] =~= seq![s].push(t));
    } else {
        let rest = s.skip(n + 1);
        assert(all.take(n) =~= s.take(n));
        assert(all.skip(n + 1) =~= rest + seq![sep] + t);
        lemma_split_last(rest, sep, t);
        assert(seq![s.take(n)] + split_at_each(rest, sep).push(t) =~= (seq![s.take(n)]
            + split_at_each(rest, sep)).push(t));
    }
}

/// Texts that agree, each with a separator behind a part without one, agree in
/// both parts.
pub proof fn lemma_parts_at_separator(
    a: Seq<char>,
    x: Seq<char>,
    b: Seq<char>,
    y: Seq<char>,
    sep: char,
)
    requires
        !a.contains(sep),
        !b.contains(sep),
        a + seq![sep] + x == b + seq![sep] + y,
    ensures
        a == b,
        x == y,
{
    lemma_first_index_before(a, sep, x);
    lemma_first_index_before(b, sep, y);
    lemma_first_index_none(a, sep);
    lemma_first_index_none(b, sep);
    let all = a + seq![sep] + x;
    assert(a.len() == b.len());
    assert(all.take(a.len() as int) =~= a);
    assert((b + seq![sep] + y).take(a.len() as int) =~= b);
    assert(all.skip(a.len() as int + 1) =~= x);
    assert((b + seq![sep] + y).skip(a.len() as int + 1) =~= y);
}

/// The index of the first `sep` at or after `from`, or the length.
pub fn find_char(v: &Vec<char>, from: usize, sep: char) -> (r: usize)
    requires
        from <= v@.len(),
    ensures
        from <= r <= v@.len(),
        r - from == first_index(v@.skip(from as int), sep),
{
    let mut at: usize = from;
    while at < v.len() && v[at] != sep
        invariant
            from <= at <= v@.len(),
            first_index(v@.skip(from as int), sep) == (at - from) + first_index(
                v@.skip(at as int),
                sep,
            ),
        decreases v@.len() - at,
    {
        assert(v@.skip(at as int)[0] == v@[at as int]);
        assert(v@.skip(at as int).drop_first() =~= v@.skip(at + 1));
        at += 1;
    }
    at
}

/// The pieces of `s` between the separators.
pub fn split_text(s: &str, sep: char) -> (r: Vec<String>)
    ensures
        texts(r@) == split_at_each(s@, sep),
{
    let v = chars_of(s);
    let mut out: Vec<String> = Vec::new();
    let mut i: usize = 0;
    assert(v@.skip(0) =~= v@);
    assert(texts(out@) =~= Seq::<Seq<char>>::empty());
    assert(texts(out@) + split_at_each(v@, sep) =~= split_at_each(v@, sep));
    loop
        invariant_except_break
            texts(out@) + split_at_each(v@.skip(i as int), sep) == split_at_each(v@, sep),
        invariant
            i <= v@.len(),
            v@ == s@,
        ensures
            texts(out@) == split_at_each(s@, sep),
        decreases v@.len() - i,
    {
        let j = find_char(&v, i, sep);
        let w = text_of(&v, i, j);
        let ghost rest = v@.skip(i as int);
        let ghost before = texts(out@);
        out.push(w);
        assert(texts(out@) =~= before.push(w@));
        if j == v.len() {
            assert(w@ =~= rest);
            assert(before + seq![rest] =~= before.push(rest));
            break;
        }
        assert(w@ =~= rest.take(j - i));
        assert(rest.skip(j - i + 1) =~= v@.skip(j + 1));
        assert(before + (seq![w@] + split_at_each(v@.skip(j + 1), sep)) =~= before.push(w@)
            + split_at_each(v@.skip(j + 1), sep));
        i = j + 1;
    }
    out
}

// ---------------------------------------------------------------------------
// ASCII case
// ---------------------------------------------------------------------------

/// A character with `A`..`Z` mapped to `a`..`z`.
pub open spec fn ascii_lower(c: char) -> char {
    if 'A' <= c <= 'Z' {
        (c as u32 + 32) as char
    } else {
        c
    }
}

/// A text with `A`..`Z` mapped to `a`..`z`.
pub open spec fn ascii_lower_text(s: Seq<char>) -> Seq<char> {
    s.map_values(|c: char| ascii_lower(c))
}

/// A character with `A`..`Z` mapped to `a`..`z`.
pub fn lower_char(c: char) -> (r: char)
    ensures
        r == ascii_lower(c),
{
    if 'A' <= c && c <= 'Z' {
        (c as u8 + 32) as char
    } else {
        c
    }
}

/// A text with `A`..`Z` mapped to `a`..`z`.
pub fn lower_ascii(s: &str) -> (r: String)
    ensures
        r@ == ascii_lower_text(s@),
{
    let v = chars_of(s);
    let mut out = String::new();
    let mut i: usize = 0;
    while i < v.len()
        invariant
            i <= v@.len(),
            out@ == ascii_lower_text(v@.take(i as int)),
        decreases v@.len() - i,
    {
        out.push(lower_char(v[i]));
        i += 1;
        assert(ascii_lower_text(v@.take(i as int)) =~= ascii_lower_text(v@.take(i - 1)).push(
            ascii_lower(v@[i - 1]),
        ));
    }
    assert(v@.take(i as int) =~= v@);
    out
}

/// Whether two texts are the same up to ASCII case.
pub open spec fn same_ascii(a: Seq<char>, b: Seq<char>) -> bool {
    ascii_lower_text(a) == ascii_lower_text(b)
}

/// Whether two texts are the same up to ASCII case.
pub fn same_ignoring_case(a: &str, b: &str) -> (r: bool)
    ensures
        r == same_ascii(a@, b@),
{
    let x = lower_ascii(a);
    let y = lower_ascii(b);
    same(x.as_str(), y.as_str())
}

// ---------------------------------------------------------------------------
// Numerals
// ---------------------------------------------------------------------------

/// The character of a decimal digit.
pub open spec fn digit_char(d: nat) -> char {
    (48 + d) as char
}

/// The decimal numeral of a number, without leading zeros.
pub open spec fn decimal(n: nat) -> Seq<char>
    decreases n,
{
    if n < 10 {
        seq![digit_char(n)]
    } else {
        decimal(n / 10).push(digit_char(n % 10))
    }
}

/// A numeral is made of digits.
pub proof fn lemma_decimal_digits(n: nat)
    ensures
        decimal(n).len() > 0,
        forall|i: int| 0 <= i < decimal(n).len() ==> is_digit(#[trigger] decimal(n)[i]),
        decimal(n).len() == 1 <==> n < 10,
    decreases n,
{
    if n >= 10 {
        lemma_decimal_digits(n / 10);
    }
}

/// Two numbers with the same numeral are the same.
pub proof fn lemma_decimal_injective(a: nat, b: nat)
    requires
        decimal(a) == decimal(b),
    ensures
        a == b,
    decreases a,
{
    lemma_decimal_digits(a);
    lemma_decimal_digits(b);
    assert(decimal(a).last() == digit_char(a % 10));
    assert(decimal(b).last() == digit_char(b % 10));
    if a >= 10 {
        assert(decimal(a).drop_last() =~= decimal(a / 10));
        assert(decimal(b).drop_last() =~= decimal(b / 10));
        lemma_decimal_injective(a / 10, b / 10);
    }
}

/// Append the decimal numeral of `n`.
pub fn push_decimal(out: &mut String, n: u64)
    ensures
        final(out)@ == old(out)@ + decimal(n as nat),
    decreases n,
{
    let ghost start = out@;
    if n >= 10 {
        push_decimal(out, n / 10);
        out.push((48 + (n % 10) as u8) as char);
        assert(out@ =~= start + decimal(n as nat));
    } else {
        out.push((48 + n as u8) as char);
        assert(out@ =~= start + decimal(n as nat));
    }
}

/// Whether a character is a decimal digit.
pub open spec fn is_digit(c: char) -> bool {
    '0' <= c <= '9'
}

/// The number that a run of decimal digits stands for.
pub open spec fn digits_value(s: Seq<char>) -> nat
    decreases s.len(),
{
    if s.len() == 0 {
        0
    } else {
        (digits_value(s.drop_last()) * 10 + (s.last() as u32 - 48)) as nat
    }
}

/// Whether a text is one or more decimal digits.
pub open spec fn all_digits(s: Seq<char>) -> bool {
    s.len() > 0 && forall|i: int| 0 <= i < s.len() ==> is_digit(#[trigger] s[i])
}

/// What a text stands for as an unsigned number up to `max`: an optional `+`,
/// then one or more digits.
pub open spec fn unsigned_value(s: Seq<char>, max: nat) -> Option<nat> {
    let body = if s.len() > 0 && s[0] == '+' {
        s.drop_first()
    } else {
        s
    };
    if all_digits(body) && digits_value(body) <= max {
        Some(digits_value(body))
    } else {
        None
    }
}

/// What a text stands for as a signed 32-bit number: an optional sign, then
/// one or more digits.
pub open spec fn signed_value(s: Seq<char>) -> Option<int> {
    if s.len() > 0 && s[0] == '-' {
        let body = s.drop_first();
        if all_digits(body) && digits_value(body) <= 0x8000_0000 {
            Some(-(digits_value(body) as int))
        } else {
            None
        }
    } else {
        match unsigned_value(s, 0x7fff_ffff) {
            Some(n) => Some(n as int),
            None => None,
        }
    }
}

proof fn lemma_digits_value_grows(s: Seq<char>, n: int)
    requires
        0 <= n <= s.len(),
        forall|i: int| 0 <= i < s.len() ==> is_digit(#[trigger] s[i]),
    ensures
        digits_value(s.take(n)) <= digits_value(s),
    decreases s.len() - n,
{
    if n < s.len() {
        lemma_digits_value_grows(s, n + 1);
        assert(s.take(n + 1).drop_last() =~= s.take(n));
    } else {
        assert(s.take(n) =~= s);
    }
}

/// The number that `v[from..]` stands for when it is one or more digits and
/// the number is at most `max`.
fn digits_up_to(v: &Vec<char>, from: usize, max: u64) -> (r: Option<u64>)
    requires
        from <= v@.len(),
    ensures
        ({
            let body = v@.skip(from as int);
            match r {
                Some(n) => all_digits(body) && digits_value(body) == n && n <= max,
                None => !(all_digits(body) && digits_value(body) <= max),
            }
        }),
{
    let ghost body = v@.skip(from as int);
    if from == v.len() {
        return None;
    }
    let mut n: u64 = 0;
    let mut i: usize = from;
    assert(body.take(0) =~= Seq::<char>::empty());
    while i < v.len()
        invariant
            from <= i <= v@.len(),
            body == v@.skip(from as int),
            n == digits_value(body.take(i - from)),
            n <= max,
            forall|k: int| 0 <= k < i - from ==> is_digit(#[trigger] body[k]),
        decreases v@.len() - i,
    {
        let c = v[i];
        assert(body[i - from] == c);
        if !('0' <= c && c <= '9') {
            return None;
        }
        let d: u64 = (c as u32 - 48) as u64;
        assert(body.take(i + 1 - from).drop_last() =~= body.take(i - from));
        if n > (u64::MAX - d) / 10 || n * 10 + d > max {
            proof {
                if all_digits(body) {
                    lemma_digits_value_grows(body, i + 1 - from);
                }
            }
            return None;
        }
        n = n * 10 + d;
        i += 1;
    }
    assert(body.take(i - from) =~= body);
    Some(n)
}

/// Read an unsigned number of at most `max`.
pub fn parse_unsigned(s: &str, max: u64) -> (r: Option<u64>)
    ensures
        match r {
            Some(n) => unsigned_value(s@, max as nat) == Some(n as nat),
            None => unsigned_value(s@, max as nat) is None,
        },
{
    let v = chars_of(s);
    if v.len() > 0 && v[0] == '+' {
        assert(v@.skip(1) =~= s@.drop_first());
        digits_up_to(&v, 1, max)
    } else {
        assert(v@.skip(0) =~= s@);
        digits_up_to(&v, 0, max)
    }
}

/// Read a signed 32-bit number.
pub fn parse_signed(s: &str) -> (r: Option<i32>)
    ensures
        match r {
            Some(n) => signed_value(s@) == Some(n as int),
            None => signed_value(s@) is None,
        },
{
    let v = chars_of(s);
    if v.len() > 0 && v[0] == '-' {
        assert(v@.skip(1) =~= s@.drop_first());
        match digits_up_to(&v, 1, 0x8000_0000) {
            Some(n) => Some((0 - n as i64) as i32),
            None => None,
        }
    } else {
        match parse_unsigned(s, 0x7fff_ffff) {
            Some(n) => Some(n as i32),
            None => None,
        }
    }
}

// ---------------------------------------------------------------------------
// Paths
// ---------------------------------------------------------------------------

/// The path of `name` inside the directory `dir`. An empty directory adds
/// nothing, and one that ends in `/` gets no second slash.
pub open spec fn joined_path(dir: Seq<char>, name: Seq<char>) -> Seq<char> {
    if dir.len() == 0 || dir.last() == '/' {
        dir + name
    } else {
        dir.push('/') + name
    }
}

/// The path of the relative `name` inside the directory `dir`.
pub fn join_path(dir: &str, name: &str) -> (r: String)
    ensures
        r@ == joined_path(dir@, name@),
{
    let v = chars_of(dir);
    let mut out = owned(dir);
    if v.len() > 0 && v[v.len() - 1] != '/' {
        out.push('/');
    }
    out.append(name);
    out
}

// ---------------------------------------------------------------------------
// Floating-point numerals
// ---------------------------------------------------------------------------

/// A run of decimal digits, perhaps an empty one.
pub open spec fn only_digits(s: Seq<char>) -> bool {
    forall|i: int| 0 <= i < s.len() ==> is_digit(#[trigger] s[i])
}

/// A text without the sign in front of it, if there is one.
pub open spec fn unsigned_part(s: Seq<char>) -> Seq<char> {
    if s.len() > 0 && (s[0] == '+' || s[0] == '-') {
        s.skip(1)
    } else {
        s
    }
}

/// Digits with at most one point among them and at least one digit.
pub open spec fn is_mantissa(s: Seq<char>) -> bool {
    let dot = first_index(s, '.') as int;
    if dot == s.len() {
        s.len() > 0 && only_digits(s)
    } else {
        s.len() > 1 && only_digits(s.take(dot)) && only_digits(s.skip(dot + 1))
    }
}

/// A mantissa, perhaps with an exponent behind an `e`.
pub open spec fn is_number(s: Seq<char>) -> bool {
    let e = first_index(s, 'e') as int;
    is_mantissa(s.take(e)) && (e == s.len() || {
        let digits = unsigned_part(s.skip(e + 1));
        digits.len() > 0 && only_digits(digits)
    })
}

/// The numerals that stand for a floating-point number: a number, an infinity
/// or a not-a-number, in either case and perhaps with a sign.
pub open spec fn is_float_numeral(s: Seq<char>) -> bool {
    let t = unsigned_part(ascii_lower_text(s));
    t == "inf"@ || t == "infinity"@ || t == "nan"@ || is_number(t)
}

/// Whether a part of a text is all digits.
fn digits_between(v: &Vec<char>, from: usize, to: usize) -> (r: bool)
    requires
        from <= to <= v@.len(),
    ensures
        r == only_digits(v@.subrange(from as int, to as int)),
{
    let ghost part = v@.subrange(from as int, to as int);
    let mut i: usize = from;
    while i < to
        invariant
            from <= i <= to <= v@.len(),
            part == v@.subrange(from as int, to as int),
            forall|k: int| 0 <= k < i - from ==> is_digit(#[trigger] part[k]),
        decreases to - i,
    {
        let c = v[i];
        assert(part[i - from] == c);
        if !('0' <= c && c <= '9') {
            return false;
        }
        i += 1;
    }
    true
}

/// Whether the part of a text before `to` is a mantissa.
fn mantissa_before(v: &Vec<char>, from: usize, to: usize) -> (r: bool)
    requires
        from <= to <= v@.len(),
    ensures
        r == is_mantissa(v@.subrange(from as int, to as int)),
{
    let ghost part = v@.subrange(from as int, to as int);
    let mut dot: usize = from;
    assert(part.skip(0) =~= part);
    while dot < to && v[dot] != '.'
        invariant
            from <= dot <= to <= v@.len(),
            part == v@.subrange(from as int, to as int),
            first_index(part, '.') == (dot - from) + first_index(part.skip(dot - from), '.'),
        decreases to - dot,
    {
        assert(part.skip(dot - from)[0] == v@[dot as int]);
        assert(part.skip(dot - from).drop_first() =~= part.skip(dot + 1 - from));
        dot += 1;
    }
    if dot == to {
        to > from && digits_between(v, from, to)
    } else {
        assert(part.skip(dot - from)[0] == '.');
        assert(part.take(dot - from) =~= v@.subrange(from as int, dot as int));
        assert(part.skip(dot - from + 1) =~= v@.subrange(dot + 1, to as int));
        to - from > 1 && digits_between(v, from, dot) && digits_between(v, dot + 1, to)
    }
}

/// Whether a text is a floating-point numeral.
pub fn float_numeral(s: &str) -> (r: bool)
    ensures
        r == is_float_numeral(s@),
{
    let lower = lower_ascii(s);
    let all = chars_of(lower.as_str());
    let n: usize = all.len();
    let from: usize = if n > 0 && (all[0] == '+' || all[0] == '-') {
        1
    } else {
        0
    };
    let v = chars_of(text_of(&all, from, n).as_str());
    assert(v@ =~= unsigned_part(ascii_lower_text(s@)));
    let t = text_of(&v, 0, v.len());
    assert(t@ =~= v@);
    if same(t.as_str(), "inf") || same(t.as_str(), "infinity") || same(t.as_str(), "nan") {
        return true;
    }
    let total: usize = v.len();
    let e = find_char(&v, 0, 'e');
    assert(v@.skip(0) =~= v@);
    assert(v@.take(e as int) =~= v@.subrange(0, e as int));
    if !mantissa_before(&v, 0, e) {
        return false;
    }
    if e == total {
        return true;
    }
    let ghost tail = v@.skip(e + 1);
    let start: usize = if e + 1 < total && (v[e + 1] == '+' || v[e + 1] == '-') {
        e + 2
    } else {
        e + 1
    };
    assert(tail.len() > 0 ==> tail[0] == v@[e + 1]);
    assert(unsigned_part(tail) =~= v@.subrange(start as int, total as int));
    start < total && digits_between(&v, start, total)
}

// ---------------------------------------------------------------------------
// Laws
// ---------------------------------------------------------------------------

/// A numeral stands for the number it was made of.
proof fn lemma_numeral_value(n: nat)
    ensures
        digits_value(decimal(n)) == n,
        all_digits(decimal(n)),
    decreases n,
{
    lemma_decimal_digits(n);
    if n >= 10 {
        lemma_numeral_value(n / 10);
        assert(decimal(n).drop_last() =~= decimal(n / 10));
        assert(decimal(n).last() == digit_char(n % 10));
    } else {
        assert(decimal(n).drop_last() =~= Seq::<char>::empty());
        assert(digits_value(Seq::<char>::empty()) == 0);
    }
}

/// Reading the numeral of a number gives the number back, up to the largest one
/// that is allowed; with a minus in front, its negative.
pub proof fn law_numeral_reads_back(n: nat, max: nat)
    ensures
        unsigned_value(decimal(n), max) == (if n <= max {
            Some(n)
        } else {
            None
        }),
        unsigned_value(seq!['+'] + decimal(n), max) == unsigned_value(decimal(n), max),
        unsigned_value(seq!['-'] + decimal(n), max) is None,
        n <= i32::MAX ==> signed_value(decimal(n)) == Some(n as int),
        n > i32::MAX ==> signed_value(decimal(n)) is None,
        n <= 0x8000_0000 ==> signed_value(seq!['-'] + decimal(n)) == Some(-n),
        n > 0x8000_0000 ==> signed_value(seq!['-'] + decimal(n)) is None,
{
    lemma_numeral_value(n);
    lemma_decimal_digits(n);
    assert(is_digit(decimal(n)[0]));
    assert((seq!['+'] + decimal(n)).drop_first() =~= decimal(n));
    let minus = seq!['-'] + decimal(n);
    assert(minus.drop_first() =~= decimal(n));
    assert(minus[0] == '-');
}

/// A text that is read as a number is a sign, or none, and digits only.
pub proof fn law_numbers_are_digits(s: Seq<char>, max: nat, i: int)
    requires
        0 <= i < s.len(),
        unsigned_value(s, max) is Some || signed_value(s) is Some,
    ensures
        is_digit(s[i]) || (i == 0 && s.len() > 1 && (s[0] == '+' || s[0] == '-')),
{
    if !is_digit(s[i]) {
        if i > 0 {
            assert(s.drop_first()[i - 1] == s[i]);
        } else if s[0] == '+' || s[0] == '-' {
        } else {
            assert(!all_digits(s));
        }
    }
}

/// White space is what Unicode calls so.
pub proof fn law_white_space(c: char)
    ensures
        is_white(c) <==> (c == ' ' || c == '\t' || c == '\n' || c == '\r' || c == '\x0b' || c
            == '\x0c' || c == '\u{85}' || c == '\u{a0}' || c == '\u{1680}' || '\u{2000}' <= c
            <= '\u{200a}' || c == '\u{2028}' || c == '\u{2029}' || c == '\u{202f}' || c
            == '\u{205f}' || c == '\u{3000}'),
{
}

/// Trimming cuts off white space at both ends, all of it and nothing else.
pub proof fn law_trimming_cuts_white_space(s: Seq<char>) -> (r: (int, int))
    ensures
        0 <= r.0 <= r.1 <= s.len(),
        trimmed(s) == s.subrange(r.0, r.1),
        forall|i: int| 0 <= i < r.0 || r.1 <= i < s.len() ==> is_white(#[trigger] s[i]),
        r.0 < r.1 ==> !is_white(s[r.0]) && !is_white(s[r.1 - 1]),
{
    let a = lemma_left_cut(s);
    let left = trim_left(s);
    let n = lemma_right_cut(left);
    assert(trimmed(s) =~= s.subrange(a, a + n));
    assert forall|i: int| 0 <= i < a || a + n <= i < s.len() implies is_white(#[trigger] s[i]) by {
        if i >= a + n {
            assert(left[i - a] == s[i]);
        }
    }
    if n > 0 {
        assert(left[0] == s[a]);
        assert(left[n - 1] == s[a + n - 1]);
    }
    (a, a + n)
}

/// How much of the start is trimmed.
proof fn lemma_left_cut(s: Seq<char>) -> (n: int)
    ensures
        0 <= n <= s.len(),
        trim_left(s) == s.skip(n),
        forall|i: int| 0 <= i < n ==> is_white(#[trigger] s[i]),
        n < s.len() ==> !is_white(s[n]),
    decreases s.len(),
{
    if s.len() > 0 && is_white(s[0]) {
        let rest = s.drop_first();
        let n = lemma_left_cut(rest);
        assert(rest.skip(n) =~= s.skip(n + 1));
        assert forall|i: int| 0 <= i < n + 1 implies is_white(#[trigger] s[i]) by {
            if i > 0 {
                assert(rest[i - 1] == s[i]);
            }
        }
        if n < rest.len() {
            assert(rest[n] == s[n + 1]);
        }
        n + 1
    } else {
        assert(s.skip(0) =~= s);
        0
    }
}

/// How much is left when the end is trimmed.
proof fn lemma_right_cut(s: Seq<char>) -> (n: int)
    ensures
        0 <= n <= s.len(),
        trim_right(s) == s.take(n),
        forall|i: int| n <= i < s.len() ==> is_white(#[trigger] s[i]),
        n > 0 ==> !is_white(s[n - 1]),
        n > 0 ==> s.len() > 0,
    decreases s.len(),
{
    if s.len() > 0 && is_white(s.last()) {
        let rest = s.drop_last();
        let n = lemma_right_cut(rest);
        assert(rest.take(n) =~= s.take(n));
        assert forall|i: int| n <= i < s.len() implies is_white(#[trigger] s[i]) by {
            if i < rest.len() {
                assert(rest[i] == s[i]);
            }
        }
        if n > 0 {
            assert(rest[n - 1] == s[n - 1]);
        }
        n
    } else {
        assert(s.take(s.len() as int) =~= s);
        s.len() as int
    }
}

/// Pieces with a separator between them.
pub open spec fn rejoined(pieces: Seq<Seq<char>>, sep: char) -> Seq<char>
    decreases pieces.len(),
{
    if pieces.len() == 0 {
        seq![]
    } else if pieces.len() == 1 {
        pieces[0]
    } else {
        pieces[0] + seq![sep] + rejoined(pieces.drop_first(), sep)
    }
}

/// Splitting at a separator cuts a text at every one: put together again with
/// the separator between them, the pieces are the text, and none of them holds
/// it.
pub proof fn law_split_pieces_rejoin(s: Seq<char>, sep: char)
    ensures
        split_at_each(s, sep).len() > 0,
        rejoined(split_at_each(s, sep), sep) == s,
        forall|i: int|
            0 <= i < split_at_each(s, sep).len() ==> !(#[trigger] split_at_each(
                s,
                sep,
            )[i]).contains(sep),
    decreases s.len(),
{
    let n = first_index(s, sep) as int;
    lemma_first_index_bound(s, sep);
    lemma_before_first(s, sep);
    let pieces = split_at_each(s, sep);
    if n >= s.len() {
        assert(s.take(n) =~= s);
        assert(pieces == seq![s]);
    } else {
        let rest = s.skip(n + 1);
        law_split_pieces_rejoin(rest, sep);
        let tail = split_at_each(rest, sep);
        assert(pieces == seq![s.take(n)] + tail);
        assert(pieces.drop_first() =~= tail);
        assert(s.take(n) + seq![sep] + rest =~= s);
        assert forall|i: int| 0 <= i < pieces.len() implies !(#[trigger] pieces[i]).contains(
            sep,
        ) by {
            if i > 0 {
                assert(pieces[i] == tail[i - 1]);
            }
        }
    }
}

/// No separator stands before the first.
proof fn lemma_before_first(s: Seq<char>, sep: char)
    ensures
        first_index(s, sep) <= s.len(),
        !s.take(first_index(s, sep) as int).contains(sep),
    decreases s.len(),
{
    let n = first_index(s, sep) as int;
    if s.len() > 0 && s[0] != sep {
        let rest = s.drop_first();
        lemma_before_first(rest, sep);
        let head = s.take(n);
        if head.contains(sep) {
            let i = choose|i: int| 0 <= i < head.len() && head[i] == sep;
            assert(rest.take(n - 1)[i - 1] == sep);
        }
    }
}

/// Only the letters `A` to `Z` have another lowercase form, each the letter as
/// far behind `a` as it is behind `A`.
pub proof fn law_ascii_lowercase(c: char)
    ensures
        'A' <= c <= 'Z' ==> 'a' <= ascii_lower(c) <= 'z' && ascii_lower(c) as u32 - 'a' as u32 == c
            as u32 - 'A' as u32,
        !('A' <= c <= 'Z') ==> ascii_lower(c) == c,
{
}

/// The path of a file in a directory is the directory, a slash that is not there
/// twice, and the name.
pub proof fn law_path_in_directory(dir: Seq<char>, name: Seq<char>)
    ensures
        dir.len() > 0 ==> joined_path(dir, name) == joined_path(dir, seq![]) + name,
        dir.len() > 0 ==> joined_path(dir, seq![]).last() == '/',
        joined_path(seq![], name) == name,
        joined_path(dir.push('/'), name) == dir.push('/') + name,
        dir.len() > 0 && dir.last() != '/' ==> joined_path(dir, name) == joined_path(
            dir.push('/'),
            name,
        ),
{
    if dir.len() > 0 {
        assert(joined_path(dir, name) =~= joined_path(dir, seq![]) + name);
        if dir.last() == '/' {
            assert(joined_path(dir, seq![]) =~= dir);
        } else {
            assert(joined_path(dir, seq![]) =~= dir.push('/'));
        }
    }
    assert(joined_path(seq![], name) =~= name);
}

/// A text begins with another exactly where it is that one with something behind
/// it, and holds one exactly where it stands somewhere in it.
pub proof fn law_parts_of_texts(before: Seq<char>, part: Seq<char>, after: Seq<char>)
    ensures
        begins_with(part + after, part),
        holds_part(before + part + after, part),
{
    assert((part + after).take(part.len() as int) =~= part);
    let all = before + part + after;
    let n = before.len() as int;
    assert(all.subrange(n, n + part.len()) =~= part);
    assert(part_at(all, part, n));
}

/// What begins with a text is that text and the rest; what holds one is what
/// stands before it, the text, and what stands behind.
pub proof fn law_texts_of_parts(s: Seq<char>, part: Seq<char>) -> (at: int)
    ensures
        begins_with(s, part) ==> part.len() <= s.len() && s == part + s.skip(part.len() as int),
        holds_part(s, part) ==> 0 <= at && at + part.len() <= s.len() && s == s.take(at) + part
            + s.skip(at + part.len()),
{
    if begins_with(s, part) {
        assert(s =~= s.take(part.len() as int) + s.skip(part.len() as int));
    }
    if holds_part(s, part) {
        let at = choose|i: int| part_at(s, part, i);
        assert(s =~= s.take(at) + s.subrange(at, at + part.len()) + s.skip(at + part.len()));
        at
    } else {
        0
    }
}

/// The numeral of a number is a floating-point numeral, and so is one with a
/// fraction behind a point; a text without a digit or one with a blank in it is
/// none.
pub proof fn law_floating_point_numerals(a: nat, b: nat)
    ensures
        is_float_numeral(decimal(a)),
        is_float_numeral(decimal(a) + seq!['.'] + decimal(b)),
        !is_float_numeral(seq![]),
        !is_float_numeral(decimal(a) + seq![' '] + decimal(b)),
{
    lemma_decimal_digits(a);
    lemma_decimal_digits(b);
    let whole = decimal(a);
    let fraction = decimal(a) + seq!['.'] + decimal(b);
    let apart = decimal(a) + seq![' '] + decimal(b);
    lemma_plain_numeral(whole);
    lemma_plain_numeral(fraction);
    lemma_plain_numeral(apart);
    assert(!whole.contains('.'));
    lemma_first_index_none(whole, '.');
    lemma_first_index_before(decimal(a), '.', decimal(b));
    lemma_first_index_none(decimal(a), '.');
    assert(fraction.take(decimal(a).len() as int) =~= decimal(a));
    assert(fraction.skip(decimal(a).len() as int + 1) =~= decimal(b));
    assert(!apart.contains('.'));
    lemma_first_index_none(apart, '.');
    assert(apart[decimal(a).len() as int] == ' ');
    reveal_strlit("inf");
    reveal_strlit("infinity");
    reveal_strlit("nan");
    assert(is_digit(whole[0]) && is_digit(fraction[0]) && is_digit(apart[0]));
    assert("inf"@[0] == 'i' && "infinity"@[0] == 'i' && "nan"@[0] == 'n');
    let none = Seq::<char>::empty();
    assert(ascii_lower_text(none) =~= none);
    assert(none.take(0) =~= none);
}

/// A text of digits, points and blanks that starts with a digit has no sign, no
/// exponent and no uppercase letter.
proof fn lemma_plain_numeral(s: Seq<char>)
    requires
        s.len() > 0,
        is_digit(s[0]),
        forall|i: int| 0 <= i < s.len() ==> is_digit(#[trigger] s[i]) || s[i] == '.' || s[i] == ' ',
    ensures
        ascii_lower_text(s) == s,
        unsigned_part(s) == s,
        first_index(s, 'e') == s.len(),
        s.take(s.len() as int) == s,
{
    assert(ascii_lower_text(s) =~= s);
    assert(!s.contains('e'));
    lemma_first_index_none(s, 'e');
    assert(s.take(s.len() as int) =~= s);
}

/// The words of a text are not empty and hold no white space, and together they
/// hold every other character of the text, in order.
pub proof fn law_words_are_words(s: Seq<char>)
    ensures
        forall|i: int| 0 <= i < words(s).len() ==> is_word(#[trigger] words(s)[i]),
        words(s).flatten() == s.filter(|c: char| !is_white(c)),
    decreases s.len(),
{
    let keep = |c: char| !is_white(c);
    let all = words(s);
    if s.len() == 0 {
        assert(all.flatten() =~= Seq::<char>::empty());
        assert(s.filter(keep) =~= Seq::<char>::empty());
    } else if is_white(s[0]) {
        let rest = s.drop_first();
        law_words_are_words(rest);
        assert(s =~= seq![s[0]] + rest);
        Seq::filter_distributes_over_add(seq![s[0]], rest, keep);
        reveal(Seq::filter);
        assert(seq![s[0]].drop_last() =~= Seq::<char>::empty());
        assert(Seq::<char>::empty().filter(keep) =~= Seq::<char>::empty());
        assert(seq![s[0]].filter(keep) =~= Seq::<char>::empty());
        assert(s.filter(keep) =~= rest.filter(keep));
    } else {
        lemma_word_len_bound(s);
        let n = word_len(s) as int;
        let word = s.take(n);
        let rest = s.skip(n);
        lemma_word_len_clean(s);
        law_words_are_words(rest);
        assert(all == seq![word] + words(rest));
        assert(all.drop_first() =~= words(rest));
        assert(all[0] == word);
        assert(all.flatten() == word + words(rest).flatten());
        assert(s =~= word + rest);
        Seq::filter_distributes_over_add(word, rest, keep);
        lemma_filter_all(word, keep);
        assert forall|i: int| 0 <= i < all.len() implies is_word(#[trigger] all[i]) by {
            if i > 0 {
                assert(all[i] == words(rest)[i - 1]);
            }
        }
    }
}

/// The word at the start of a text holds no white space.
proof fn lemma_word_len_clean(s: Seq<char>)
    ensures
        forall|i: int| 0 <= i < word_len(s) && i < s.len() ==> !is_white(#[trigger] s[i]),
    decreases s.len(),
{
    if s.len() > 0 && !is_white(s[0]) {
        let rest = s.drop_first();
        lemma_word_len_clean(rest);
        assert forall|i: int| 0 <= i < word_len(s) && i < s.len() implies !is_white(
            #[trigger] s[i],
        ) by {
            if i > 0 {
                assert(s[i] == rest[i - 1]);
            }
        }
    }
}

/// A filter that takes everything changes nothing.
proof fn lemma_filter_all(s: Seq<char>, keep: spec_fn(char) -> bool)
    requires
        forall|i: int| 0 <= i < s.len() ==> keep(#[trigger] s[i]),
    ensures
        s.filter(keep) == s,
    decreases s.len(),
{
    reveal(Seq::filter);
    if s.len() > 0 {
        let rest = s.drop_last();
        assert forall|i: int| 0 <= i < rest.len() implies keep(#[trigger] rest[i]) by {
            assert(rest[i] == s[i]);
        }
        lemma_filter_all(rest, keep);
        assert(keep(s[s.len() - 1]));
        assert(rest.push(s.last()) =~= s);
    }
}

/// An ASCII character is encoded as the byte with its number.
pub proof fn law_ascii_is_one_byte(c: char)
    requires
        c as u32 <= 0x7f,
    ensures
        encode_utf8(seq![c]) == seq![c as u8],
{
    let u = c as u32;
    let text = seq![c];
    assert(text.drop_first() =~= Seq::<char>::empty());
    assert(encode_utf8(text.drop_first()) =~= Seq::<u8>::empty());
    assert(leading_byte_width_1(u) == u as u8) by (bit_vector)
        requires
            u <= 0x7f,
    ;
    assert(encode_utf8(text) =~= seq![c as u8]);
}

/// Several texts are seen as the texts that they are, in order, and a text that
/// may be missing as one that may be.
pub proof fn law_texts_seen_as_they_are(all: Seq<String>, one: Option<String>, i: int)
    requires
        0 <= i < all.len(),
    ensures
        texts(all).len() == all.len(),
        texts(all)[i] == all[i]@,
        one is Some <==> opt_text(one) is Some,
        one matches Some(text) ==> opt_text(one) == Some(text@),
{
}

/// An ASCII text is put into lowercase letter by letter, and any other text by
/// the Unicode tables as a whole.
pub proof fn law_lowercase_text(s: Seq<char>, i: int)
    ensures
        (forall|k: int| 0 <= k < s.len() ==> '\0' <= #[trigger] s[k] <= '\x7f') ==> lowercase_text(
            s,
        ).len() == s.len() && (0 <= i < s.len() ==> lowercase_text(s)[i] == ascii_lower(s[i])),
        0 <= i < s.len() && s[i] as u32 > 0x7f ==> lowercase_text(s) == unicode_lower_text(s),
{
}

/// The ASCII characters that count as letters and digits.
pub proof fn law_ascii_letters_and_digits(c: char)
    requires
        c as u32 <= 0x7f,
    ensures
        alphanumeric(c) <==> 'a' <= c <= 'z' || 'A' <= c <= 'Z' || '0' <= c <= '9',
        lowercase_first(c) == ascii_lower(c),
{
}

} // verus!

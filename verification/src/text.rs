//! Text as sequences of characters: the string operations the proxy needs,
//! each stated over `Seq<char>` and proved.
use vstd::prelude::*;

pub mod laws;

verus! {

/// What an optional piece of borrowed text says.
pub open spec fn text_ref(text: Option<&str>) -> Option<Seq<char>> {
    match text {
        Some(t) => Some(t@),
        None => None,
    }
}

/// What an optional piece of owned text says.
pub open spec fn text_opt(text: Option<String>) -> Option<Seq<char>> {
    match text {
        Some(t) => Some(t@),
        None => None,
    }
}

/// What each text of a list says.
pub open spec fn texts(list: Seq<String>) -> Seq<Seq<char>> {
    Seq::new(list.len(), |i: int| list[i]@)
}

/// The texts of a list with one more behind them.
pub proof fn lemma_texts_push(list: Seq<String>, item: String)
    ensures
        texts(list.push(item)) == texts(list).push(item@),
{
    assert(texts(list.push(item)) =~= texts(list).push(item@));
}

/// A kind of character that trimming takes away.
#[derive(Clone, Copy)]
pub enum CharClass {
    /// Unicode white space.
    WhiteSpace,
    /// Carriage return and line feed.
    LineBreak,
    /// Carriage return.
    CarriageReturn,
    /// The solidus that separates path segments.
    Slash,
}

/// The code points with the Unicode property `White_Space`.
pub open spec fn is_white_space(c: char) -> bool {
    ||| '\u{9}' <= c <= '\u{d}'
    ||| c == ' '
    ||| c == '\u{85}'
    ||| c == '\u{a0}'
    ||| c == '\u{1680}'
    ||| '\u{2000}' <= c <= '\u{200a}'
    ||| c == '\u{2028}'
    ||| c == '\u{2029}'
    ||| c == '\u{202f}'
    ||| c == '\u{205f}'
    ||| c == '\u{3000}'
}

impl CharClass {
    /// Whether the class holds the character.
    pub open spec fn holds(self, c: char) -> bool {
        match self {
            CharClass::WhiteSpace => is_white_space(c),
            CharClass::LineBreak => c == '\r' || c == '\n',
            CharClass::CarriageReturn => c == '\r',
            CharClass::Slash => c == '/',
        }
    }

    /// Whether the class holds the character.
    pub fn contains(self, c: char) -> (r: bool)
        ensures
            r == self.holds(c),
    {
        match self {
            CharClass::WhiteSpace => {
                ('\u{9}' <= c && c <= '\u{d}') || c == ' ' || c == '\u{85}' || c == '\u{a0}' || c
                    == '\u{1680}' || ('\u{2000}' <= c && c <= '\u{200a}') || c == '\u{2028}' || c
                    == '\u{2029}' || c == '\u{202f}' || c == '\u{205f}' || c == '\u{3000}'
            },
            CharClass::LineBreak => c == '\r' || c == '\n',
            CharClass::CarriageReturn => c == '\r',
            CharClass::Slash => c == '/',
        }
    }
}

/// Whether two texts hold the same characters.
pub fn same_text(a: &str, b: &str) -> (r: bool)
    ensures
        r == (a@ == b@),
{
    let x = a.as_bytes();
    let y = b.as_bytes();
    proof {
        vstd::utf8::encode_utf8_decode_utf8(a@);
        vstd::utf8::encode_utf8_decode_utf8(b@);
    }
    if x.len() != y.len() {
        return false;
    }
    let mut i: usize = 0;
    while i < x.len()
        invariant
            i <= x.len(),
            x.len() == y.len(),
            x@ == vstd::utf8::encode_utf8(a@),
            y@ == vstd::utf8::encode_utf8(b@),
            forall|j: int| 0 <= j < i ==> x@[j] == y@[j],
        decreases x.len() - i,
    {
        if x[i] != y[i] {
            assert(x@ != y@);
            return false;
        }
        i = i + 1;
    }
    assert(x@ =~= y@);
    true
}

/// The characters of a text.
pub fn chars_of(text: &str) -> (r: Vec<char>)
    ensures
        r@ == text@,
{
    let mut out: Vec<char> = Vec::new();
    for c in it: text.chars()
        invariant
            it.seq() == text@,
            out@ == it.seq().take(it.index() as int),
    {
        out.push(c);
    }
    assert(text@.take(text@.len() as int) =~= text@);
    out
}

/// Whether `text` begins with `prefix`.
pub open spec fn begins_with(text: Seq<char>, prefix: Seq<char>) -> bool {
    prefix.len() <= text.len() && text.take(prefix.len() as int) == prefix
}

/// Whether `text` ends with `suffix`.
pub open spec fn ends_with(text: Seq<char>, suffix: Seq<char>) -> bool {
    suffix.len() <= text.len() && text.skip(text.len() - suffix.len()) == suffix
}

/// What follows `prefix` at the head of `text`, if it stands there.
pub open spec fn after_prefix(text: Seq<char>, prefix: Seq<char>) -> Option<Seq<char>> {
    if begins_with(text, prefix) {
        Some(text.skip(prefix.len() as int))
    } else {
        None
    }
}

/// Whether `text` begins with `prefix`.
pub fn has_prefix(text: &str, prefix: &str) -> (r: bool)
    ensures
        r == begins_with(text@, prefix@),
{
    match strip(text, prefix) {
        Some(_) => true,
        None => false,
    }
}

/// What follows `prefix` at the head of `text`, if it stands there.
pub fn strip<'a>(text: &'a str, prefix: &str) -> (r: Option<&'a str>)
    ensures
        text_ref(r) == after_prefix(text@, prefix@),
{
    let n: usize = prefix.unicode_len();
    let m: usize = text.unicode_len();
    if n > m {
        return None;
    }
    let head = text.substring_char(0, n);
    assert(head@ =~= text@.take(n as int));
    if same_text(head, prefix) {
        let rest = text.substring_char(n, m);
        assert(rest@ =~= text@.skip(n as int));
        Some(rest)
    } else {
        None
    }
}

/// Whether `text` ends with `suffix`.
pub fn has_suffix(text: &str, suffix: &str) -> (r: bool)
    ensures
        r == ends_with(text@, suffix@),
{
    let n: usize = suffix.unicode_len();
    let m: usize = text.unicode_len();
    if n > m {
        return false;
    }
    let tail = text.substring_char(m - n, m);
    assert(tail@ =~= text@.skip(m - n));
    same_text(tail, suffix)
}

/// `text` without the characters of `class` that it begins with.
pub open spec fn trim_front(text: Seq<char>, class: CharClass) -> Seq<char>
    decreases text.len(),
{
    if text.len() > 0 && class.holds(text[0]) {
        trim_front(text.drop_first(), class)
    } else {
        text
    }
}

/// `text` without the characters of `class` that it ends with.
pub open spec fn trim_back(text: Seq<char>, class: CharClass) -> Seq<char>
    decreases text.len(),
{
    if text.len() > 0 && class.holds(text.last()) {
        trim_back(text.drop_last(), class)
    } else {
        text
    }
}

/// `text` without the white space around it.
pub open spec fn trim_both(text: Seq<char>) -> Seq<char> {
    trim_back(trim_front(text, CharClass::WhiteSpace), CharClass::WhiteSpace)
}

/// `text` without the characters of `class` that it begins with.
pub fn trim_start<'a>(text: &'a str, class: CharClass) -> (r: &'a str)
    ensures
        r@ == trim_front(text@, class),
{
    let chars = chars_of(text);
    let mut i: usize = 0;
    assert(text@.skip(0) =~= text@);
    while i < chars.len() && class.contains(chars[i])
        invariant
            i <= chars.len(),
            chars@ == text@,
            trim_front(text@, class) == trim_front(text@.skip(i as int), class),
        decreases chars.len() - i,
    {
        assert(text@.skip(i as int).drop_first() =~= text@.skip(i + 1));
        i = i + 1;
    }
    let rest = text.substring_char(i, chars.len());
    assert(rest@ =~= text@.skip(i as int));
    rest
}

/// `text` without the characters of `class` that it ends with.
pub fn trim_end<'a>(text: &'a str, class: CharClass) -> (r: &'a str)
    ensures
        r@ == trim_back(text@, class),
{
    let chars = chars_of(text);
    let mut n: usize = chars.len();
    assert(text@.take(n as int) =~= text@);
    while n > 0 && class.contains(chars[n - 1])
        invariant
            n <= chars.len(),
            chars@ == text@,
            trim_back(text@, class) == trim_back(text@.take(n as int), class),
        decreases n,
    {
        assert(text@.take(n as int).drop_last() =~= text@.take(n - 1));
        n = n - 1;
    }
    let rest = text.substring_char(0, n);
    assert(rest@ =~= text@.take(n as int));
    rest
}

/// `text` without the white space around it.
pub fn trim<'a>(text: &'a str) -> (r: &'a str)
    ensures
        r@ == trim_both(text@),
{
    let front = trim_start(text, CharClass::WhiteSpace);
    trim_end(front, CharClass::WhiteSpace)
}

/// The place of the first `mark` in `text`.
pub open spec fn first_at(text: Seq<char>, mark: char) -> Option<int>
    decreases text.len(),
{
    if text.len() == 0 {
        None
    } else if text[0] == mark {
        Some(0)
    } else {
        match first_at(text.drop_first(), mark) {
            Some(i) => Some(i + 1),
            None => None,
        }
    }
}

/// What follows the first `mark` in `text`, if there is one.
pub open spec fn after_first(text: Seq<char>, mark: char) -> Option<Seq<char>> {
    match first_at(text, mark) {
        Some(i) => Some(text.skip(i + 1)),
        None => None,
    }
}

/// What follows the first `mark` in `text`, if there is one.
pub fn rest_after<'a>(text: &'a str, mark: char) -> (r: Option<&'a str>)
    ensures
        text_ref(r) == after_first(text@, mark),
{
    let chars = chars_of(text);
    let mut i: usize = 0;
    assert(text@.skip(0) =~= text@);
    while i < chars.len()
        invariant
            i <= chars.len(),
            chars@ == text@,
            first_at(text@, mark) == (match first_at(text@.skip(i as int), mark) {
                Some(k) => Some(k + i),
                None => None,
            }),
        decreases chars.len() - i,
    {
        if chars[i] == mark {
            let rest = text.substring_char(i + 1, chars.len());
            assert(rest@ =~= text@.skip(i + 1));
            return Some(rest);
        }
        assert(text@.skip(i as int).drop_first() =~= text@.skip(i + 1));
        i = i + 1;
    }
    None
}

/// The pieces of `text` between the `mark`s in it.
pub open spec fn split_on(text: Seq<char>, mark: char) -> Seq<Seq<char>>
    decreases text.len(),
{
    if text.len() == 0 {
        seq![Seq::<char>::empty()]
    } else {
        let before = split_on(text.drop_last(), mark);
        if text.last() == mark {
            before.push(Seq::<char>::empty())
        } else {
            before.drop_last().push(before.last().push(text.last()))
        }
    }
}

/// The pieces of `text` between the `mark`s in it.
pub fn split_text(text: &str, mark: char) -> (r: Vec<String>)
    ensures
        texts(r@) == split_on(text@, mark),
{
    let chars = chars_of(text);
    let mut out: Vec<String> = Vec::new();
    let mut from: usize = 0;
    let mut i: usize = 0;
    assert(text@.take(0) =~= Seq::<char>::empty());
    assert(text@.subrange(0, 0) =~= Seq::<char>::empty());
    assert(texts(out@).push(text@.subrange(0, 0)) =~= seq![Seq::<char>::empty()]);
    while i < chars.len()
        invariant
            from <= i <= chars.len(),
            chars@ == text@,
            texts(out@).push(text@.subrange(from as int, i as int)) == split_on(
                text@.take(i as int),
                mark,
            ),
        decreases chars.len() - i,
    {
        let ghost before = texts(out@).push(text@.subrange(from as int, i as int));
        assert(text@.take(i + 1).drop_last() =~= text@.take(i as int));
        if chars[i] == mark {
            let ghost old_out = out@;
            out.push(text.substring_char(from, i).to_owned());
            from = i + 1;
            assert(texts(out@) =~= before);
            assert(text@.subrange(i + 1, i + 1) =~= Seq::<char>::empty());
        } else {
            assert(before.drop_last() =~= texts(out@));
            assert(text@.subrange(from as int, i as int).push(text@[i as int]) =~= text@.subrange(
                from as int,
                i + 1,
            ));
        }
        i = i + 1;
    }
    let ghost old_out = out@;
    out.push(text.substring_char(from, chars.len()).to_owned());
    assert(texts(out@) =~= texts(old_out).push(text@.subrange(from as int, text@.len() as int)));
    assert(text@.take(text@.len() as int) =~= text@);
    out
}

/// The texts of `parts` one after the other, with `gap` between them.
pub open spec fn joined(parts: Seq<Seq<char>>, gap: Seq<char>) -> Seq<char>
    decreases parts.len(),
{
    if parts.len() == 0 {
        Seq::<char>::empty()
    } else if parts.len() == 1 {
        parts[0]
    } else {
        joined(parts.drop_last(), gap) + gap + parts.last()
    }
}

/// The texts of `parts` one after the other, with `gap` between them.
pub fn join(parts: &Vec<String>, gap: &str) -> (r: String)
    ensures
        r@ == joined(texts(parts@), gap@),
{
    let mut out = String::new();
    let mut i: usize = 0;
    assert(texts(parts@).take(0) =~= Seq::<Seq<char>>::empty());
    while i < parts.len()
        invariant
            i <= parts.len(),
            out@ == joined(texts(parts@).take(i as int), gap@),
        decreases parts.len() - i,
    {
        let ghost before = out@;
        let ghost all = texts(parts@);
        assert(all.take(i + 1).drop_last() =~= all.take(i as int));
        assert(all.take(i + 1).last() == parts@[i as int]@);
        if i > 0 {
            out.append(gap);
        } else {
            assert(before =~= Seq::<char>::empty());
        }
        out.append(parts[i].as_str());
        if i == 0 {
            assert(out@ =~= parts@[0]@);
        }
        i = i + 1;
    }
    assert(texts(parts@).take(parts@.len() as int) =~= texts(parts@));
    out
}

/// One text after another.
pub fn concat(a: &str, b: &str) -> (r: String)
    ensures
        r@ == a@ + b@,
{
    let mut out = a.to_owned();
    out.append(b);
    out
}

/// Whether `part` stands somewhere in `text`.
pub open spec fn has_part(text: Seq<char>, part: Seq<char>) -> bool {
    exists|i: int| 0 <= i <= text.len() && #[trigger] begins_with(text.skip(i), part)
}

/// Whether `part` stands somewhere in `text`.
pub fn contains_text(text: &str, part: &str) -> (r: bool)
    ensures
        r == has_part(text@, part@),
{
    let n: usize = text.unicode_len();
    let mut i: usize = 0;
    while i <= n
        invariant
            n == text@.len(),
            i <= n + 1,
            forall|j: int| 0 <= j < i ==> !#[trigger] begins_with(text@.skip(j), part@),
        decreases n + 1 - i,
    {
        let rest = text.substring_char(i, n);
        assert(rest@ =~= text@.skip(i as int));
        if has_prefix(rest, part) {
            return true;
        }
        if i == n {
            return false;
        }
        i = i + 1;
    }
    false
}

/// Whether one text comes before another, character by character.
pub open spec fn precedes(a: Seq<char>, b: Seq<char>) -> bool
    decreases a.len(),
{
    if b.len() == 0 {
        false
    } else if a.len() == 0 {
        true
    } else if a[0] == b[0] {
        precedes(a.drop_first(), b.drop_first())
    } else {
        a[0] < b[0]
    }
}

/// Whether one text comes before another, character by character.
pub fn comes_before(a: &str, b: &str) -> (r: bool)
    ensures
        r == precedes(a@, b@),
{
    let x = chars_of(a);
    let y = chars_of(b);
    let mut i: usize = 0;
    assert(a@.skip(0) =~= a@);
    assert(b@.skip(0) =~= b@);
    while i < x.len() && i < y.len()
        invariant
            i <= x.len(),
            i <= y.len(),
            x@ == a@,
            y@ == b@,
            precedes(a@, b@) == precedes(a@.skip(i as int), b@.skip(i as int)),
        decreases x.len() - i,
    {
        if x[i] != y[i] {
            return x[i] < y[i];
        }
        assert(a@.skip(i as int).drop_first() =~= a@.skip(i + 1));
        assert(b@.skip(i as int).drop_first() =~= b@.skip(i + 1));
        i = i + 1;
    }
    i < y.len()
}

/// Of three texts in order the first comes before the last.
pub proof fn lemma_precedes_on(a: Seq<char>, b: Seq<char>, c: Seq<char>)
    requires
        precedes(a, b),
        precedes(b, c),
    ensures
        precedes(a, c),
    decreases a.len(),
{
    if a.len() > 0 && a[0] == b[0] && b[0] == c[0] {
        lemma_precedes_on(a.drop_first(), b.drop_first(), c.drop_first());
    }
}

/// Of two texts that differ one comes before the other.
pub proof fn lemma_precedes_total(a: Seq<char>, b: Seq<char>)
    ensures
        a == b || precedes(a, b) || precedes(b, a),
        !(precedes(a, b) && precedes(b, a)),
        a == b ==> !precedes(a, b),
    decreases a.len(),
{
    if a.len() > 0 && b.len() > 0 && a[0] == b[0] {
        lemma_precedes_total(a.drop_first(), b.drop_first());
        if a.drop_first() == b.drop_first() {
            assert(a =~= seq![a[0]] + a.drop_first());
            assert(b =~= seq![b[0]] + b.drop_first());
        }
    } else if a.len() == 0 && b.len() == 0 {
        assert(a =~= b);
    }
}

/// An ASCII capital letter as its small letter, any other character as it is.
pub open spec fn lower_char(c: char) -> char {
    if 'A' <= c <= 'Z' {
        (c as u32 + 32) as char
    } else {
        c
    }
}

/// A text with its ASCII capital letters as small letters.
pub open spec fn lower(text: Seq<char>) -> Seq<char> {
    Seq::new(text.len(), |i: int| lower_char(text[i]))
}

/// `String::push`: the character comes to stand behind those the text held.
pub assume_specification[ std::string::String::push ](s: &mut std::string::String, c: char)
    ensures
        final(s)@ == old(s)@.push(c),
;

/// A text with its ASCII capital letters as small letters.
pub fn lowercase(text: &str) -> (r: String)
    ensures
        r@ == lower(text@),
{
    let chars = chars_of(text);
    let mut out = String::new();
    let mut i: usize = 0;
    while i < chars.len()
        invariant
            i <= chars.len(),
            chars@ == text@,
            out@ == lower(text@).take(i as int),
        decreases chars.len() - i,
    {
        let c = chars[i];
        if 'A' <= c && c <= 'Z' {
            out.push(((c as u8) + 32u8) as char);
        } else {
            out.push(c);
        }
        assert(lower(text@).take(i + 1) =~= lower(text@).take(i as int).push(lower_char(c)));
        i = i + 1;
    }
    assert(lower(text@).take(text@.len() as int) =~= lower(text@));
    out
}

/// The character of a digit in base ten or sixteen.
pub open spec fn digit(d: nat) -> char {
    if d < 10 {
        ('0' as u32 + d) as char
    } else {
        ('a' as u32 + (d - 10)) as char
    }
}

/// A number written in base ten.
pub open spec fn decimal(n: nat) -> Seq<char>
    decreases n,
{
    if n < 10 {
        seq![digit(n)]
    } else {
        decimal(n / 10).push(digit(n % 10))
    }
}

/// The last `width` digits of a number in base sixteen, zeros in front.
pub open spec fn hex(n: nat, width: nat) -> Seq<char>
    decreases width,
{
    if width == 0 {
        Seq::<char>::empty()
    } else {
        hex(n / 16, (width - 1) as nat).push(digit(n % 16))
    }
}

/// Numbers that the digits can hold and that are written alike are the same.
pub proof fn lemma_hex_differs(a: nat, b: nat, width: nat)
    requires
        a < vstd::arithmetic::power::pow(16, width),
        b < vstd::arithmetic::power::pow(16, width),
        hex(a, width) == hex(b, width),
    ensures
        a == b,
    decreases width,
{
    reveal(vstd::arithmetic::power::pow);
    if width > 0 {
        let x = hex(a / 16, (width - 1) as nat);
        let y = hex(b / 16, (width - 1) as nat);
        assert(x.push(digit(a % 16)).drop_last() =~= x);
        assert(y.push(digit(b % 16)).drop_last() =~= y);
        assert(x.push(digit(a % 16)).last() == digit(a % 16));
        assert(y.push(digit(b % 16)).last() == digit(b % 16));
        lemma_digits_differ(a % 16, b % 16);
        lemma_hex_differs(a / 16, b / 16, (width - 1) as nat);
    }
}

/// Digits that are written alike are the same.
proof fn lemma_digits_differ(a: nat, b: nat)
    requires
        a < 16,
        b < 16,
        digit(a) == digit(b),
    ensures
        a == b,
{
    assert(digit(a) as u32 == if a < 10 { 48 + a } else { 87 + a });
    assert(digit(b) as u32 == if b < 10 { 48 + b } else { 87 + b });
}

fn digit_char(d: u8) -> (r: char)
    requires
        d < 16,
    ensures
        r == digit(d as nat),
{
    if d < 10 {
        (48u8 + d) as char
    } else {
        (87u8 + d) as char
    }
}

/// A number written in base ten.
pub fn decimal_text(n: u64) -> (r: String)
    ensures
        r@ == decimal(n as nat),
    decreases n,
{
    if n < 10 {
        let mut out = String::new();
        out.push(digit_char(n as u8));
        assert(out@ =~= seq![digit(n as nat)]);
        out
    } else {
        let mut out = decimal_text(n / 10);
        out.push(digit_char((n % 10) as u8));
        out
    }
}

/// The last `width` digits of a number in base sixteen, zeros in front.
pub fn hex_text(n: u64, width: usize) -> (r: String)
    ensures
        r@ == hex(n as nat, width as nat),
    decreases width,
{
    if width == 0 {
        String::new()
    } else {
        let mut out = hex_text(n / 16, width - 1);
        out.push(digit_char((n % 16) as u8));
        out
    }
}

/// Whether a text lies on one line.
pub open spec fn one_line(text: Seq<char>) -> bool {
    forall|i: int| 0 <= i < text.len() ==> (#[trigger] text[i]) != '\n' && text[i] != '\r'
}

/// The UTF-8 bytes of two texts are those of the one and then those of the other.
pub proof fn lemma_encode_both(a: Seq<char>, b: Seq<char>)
    ensures
        vstd::utf8::encode_utf8(a + b) == vstd::utf8::encode_utf8(a) + vstd::utf8::encode_utf8(b),
    decreases a.len(),
{
    if a.len() == 0 {
        assert(a + b =~= b);
        assert(vstd::utf8::encode_utf8(a) + vstd::utf8::encode_utf8(b) =~= vstd::utf8::encode_utf8(
            b,
        ));
    } else {
        lemma_encode_both(a.drop_first(), b);
        assert((a + b).drop_first() =~= a.drop_first() + b);
        assert(vstd::utf8::encode_utf8(a + b) =~= vstd::utf8::encode_utf8(a)
            + vstd::utf8::encode_utf8(b));
    }
}

/// The UTF-8 bytes of a text on one line hold no line feed and no carriage return.
pub proof fn lemma_one_line_bytes(text: Seq<char>)
    requires
        one_line(text),
    ensures
        forall|i: int|
            0 <= i < vstd::utf8::encode_utf8(text).len() ==> (#[trigger] vstd::utf8::encode_utf8(
                text,
            )[i]) != 10 && vstd::utf8::encode_utf8(text)[i] != 13,
    decreases text.len(),
{
    if text.len() > 0 {
        let rest = text.drop_first();
        assert forall|i: int| 0 <= i < rest.len() implies (#[trigger] rest[i]) != '\n' && rest[i]
            != '\r' by {
            assert(rest[i] == text[i + 1]);
        }
        lemma_one_line_bytes(rest);
        let bytes = vstd::utf8::encode_utf8(text);
        let first = vstd::utf8::encode_scalar(text[0] as u32);
        vstd::utf8::encode_utf8_first_scalar(text);
        let b = bytes[0];
        assert(b < 128 ==> b & 0x7F == b) by (bit_vector);
        assert(text[0] != '\n' && text[0] != '\r');
        vstd::utf8::char_u32_cast(text[0], text[0] as u32);
        vstd::utf8::char_u32_cast('\n', 10);
        vstd::utf8::char_u32_cast('\r', 13);
        assert forall|i: int| 0 <= i < bytes.len() implies (#[trigger] bytes[i]) != 10 && bytes[i]
            != 13 by {
            if i < first.len() {
                assert(i > 0 ==> vstd::utf8::is_continuation_byte(bytes[i]));
                if b < 128 {
                    assert(b as u32 == text[0] as u32);
                }
            } else {
                assert(bytes[i] == vstd::utf8::encode_utf8(rest)[i - first.len()]);
            }
        }
    }
}

/// A line feed is one byte.
pub proof fn lemma_line_feed_byte()
    ensures
        vstd::utf8::encode_utf8(seq!['\n']) == seq![10u8],
{
    let s = seq!['\n'];
    assert(s.drop_first() =~= Seq::<char>::empty());
    assert(10u32 & 0x7F == 10) by (bit_vector);
    assert('\n' as u32 == 10);
    assert(vstd::utf8::encode_utf8(s.drop_first()) =~= Seq::<u8>::empty());
    assert(vstd::utf8::encode_scalar(10) =~= seq![10u8]);
    assert(vstd::utf8::encode_utf8(s) =~= seq![10u8]);
}

/// A text without the mark is one piece.
pub proof fn lemma_split_one(text: Seq<char>, mark: char)
    requires
        forall|i: int| 0 <= i < text.len() ==> (#[trigger] text[i]) != mark,
    ensures
        split_on(text, mark) == seq![text],
    decreases text.len(),
{
    if text.len() > 0 {
        let rest = text.drop_last();
        assert forall|i: int| 0 <= i < rest.len() implies (#[trigger] rest[i]) != mark by {
            assert(rest[i] == text[i]);
        }
        lemma_split_one(rest, mark);
        assert(rest.push(text.last()) =~= text);
        assert(split_on(text, mark) =~= seq![text]);
    } else {
        assert(text =~= Seq::<char>::empty());
    }
}

/// What follows the last mark of a text is its last piece.
pub proof fn lemma_split_last(head: Seq<char>, tail: Seq<char>, mark: char)
    requires
        forall|i: int| 0 <= i < tail.len() ==> (#[trigger] tail[i]) != mark,
    ensures
        split_on(head.push(mark) + tail, mark) == split_on(head, mark).push(tail),
    decreases tail.len(),
{
    let whole = head.push(mark) + tail;
    if tail.len() == 0 {
        assert(whole =~= head.push(mark));
        assert(whole.drop_last() =~= head);
        assert(tail =~= Seq::<char>::empty());
    } else {
        let rest = tail.drop_last();
        assert forall|i: int| 0 <= i < rest.len() implies (#[trigger] rest[i]) != mark by {
            assert(rest[i] == tail[i]);
        }
        lemma_split_last(head, rest, mark);
        assert(whole.drop_last() =~= head.push(mark) + rest);
        assert(whole.last() == tail[tail.len() - 1]);
        assert(rest.push(tail.last()) =~= tail);
        assert(split_on(whole, mark) =~= split_on(head, mark).push(tail));
    }
}

/// The text that `String::from_utf8_lossy` reads from bytes.
pub uninterp spec fn lossy_text(bytes: Seq<u8>) -> Seq<char>;

/// `String::from_utf8_lossy`: the text depends on the bytes alone. Valid UTF-8 is
/// decoded as it is; elsewhere replacement characters stand for what is not.
#[verifier::external_body]
pub(crate) fn decode_lossy(bytes: &[u8]) -> (r: String)
    ensures
        r@ == lossy_text(bytes@),
        vstd::utf8::valid_utf8(bytes@) ==> r@ == vstd::utf8::decode_utf8(bytes@),
{
    String::from_utf8_lossy(bytes).into_owned()
}

}

//! Text as sequences of characters: trimming, splitting, numbers and order.

use vstd::prelude::*;
use vstd::slice::slice_subrange;

verus! {

/// A set of characters by which text is trimmed or split.
#[derive(Clone, Copy, Debug, PartialEq, Eq)]
pub enum CharClass {
    /// The Unicode property `White_Space`.
    WhiteSpace,
    /// The line feed that ends a line.
    LineFeed,
    /// The tab between two columns.
    Tab,
    /// The byte order mark, which editors may leave at the start of a file.
    ByteOrderMark,
    /// The digits that mark the tone of a syllable.
    ToneDigit,
    /// White space and the punctuation accepted between two syllables.
    SyllableSeparator,
}

/// The characters with the Unicode property `White_Space`.
pub open spec fn is_white_space(c: char) -> bool {
    ||| '\u{9}' <= c <= '\u{d}'
    ||| c == ' '
    ||| c == '\u{85}'
    ||| c == '\u{a0}'
    ||| c == '\u{1680}'
    ||| '\u{2000}' <= c <= '\u{200a}'
    ||| c == '\u{2028}'
    ||| c == '\u{2029}'
    ||| c == '\u{202f}'
    ||| c == '\u{205f}'
    ||| c == '\u{3000}'
}

impl CharClass {
    /// Whether the class holds `c`.
    pub open spec fn has(self, c: char) -> bool {
        match self {
            CharClass::WhiteSpace => is_white_space(c),
            CharClass::LineFeed => c == '\n',
            CharClass::Tab => c == '\t',
            CharClass::ByteOrderMark => c == '\u{feff}',
            CharClass::ToneDigit => '0' <= c <= '5',
            CharClass::SyllableSeparator => {
                ||| is_white_space(c)
                ||| c == ','
                ||| c == '，'
                ||| c == '/'
                ||| c == '、'
                ||| c == ';'
                ||| c == '；'
            },
        }
    }

    /// Tests whether the class holds `c`.
    pub fn contains(self, c: char) -> (b: bool)
        ensures
            b == self.has(c),
    {
        let white: bool = ('\u{9}' <= c && c <= '\u{d}') || c == ' ' || c == '\u{85}' || c
            == '\u{a0}' || c == '\u{1680}' || ('\u{2000}' <= c && c <= '\u{200a}') || c
            == '\u{2028}' || c == '\u{2029}' || c == '\u{202f}' || c == '\u{205f}' || c
            == '\u{3000}';
        match self {
            CharClass::WhiteSpace => white,
            CharClass::LineFeed => c == '\n',
            CharClass::Tab => c == '\t',
            CharClass::ByteOrderMark => c == '\u{feff}',
            CharClass::ToneDigit => '0' <= c && c <= '5',
            CharClass::SyllableSeparator => white || c == ',' || c == '，' || c == '/' || c == '、'
                || c == ';' || c == '；',
        }
    }
}

/// The characters of `s`, in order.
pub fn to_chars(s: &str) -> (chars: Vec<char>)
    ensures
        chars@ == s@,
{
    let mut chars: Vec<char> = Vec::new();
    for c in it: s.chars()
        invariant
            chars@ == s@.take(it.index()),
            it.seq() == s@,
    {
        chars.push(c);
    }
    chars
}

/// The text whose characters are `chars`.
pub fn from_chars(chars: &[char]) -> (s: String)
    ensures
        s@ == chars@,
{
    let mut s: String = String::new();
    for i in 0..chars.len()
        invariant
            s@ == chars@.take(i as int),
    {
        s.push(chars[i]);
    }
    s
}

/// The views of the items of a list.
pub open spec fn views<T: View>(list: Seq<T>) -> Seq<T::V> {
    Seq::new(list.len(), |i: int| list[i].view())
}

/// A text that may be missing.
pub open spec fn optional_text(text: Option<String>) -> Option<Seq<char>> {
    match text {
        Some(text) => Some(text@),
        None => None,
    }
}

// Trimming

/// `s` without the leading characters of `class`.
pub open spec fn trimmed_start(s: Seq<char>, class: CharClass) -> Seq<char>
    decreases s.len(),
{
    if s.len() > 0 && class.has(s.first()) {
        trimmed_start(s.drop_first(), class)
    } else {
        s
    }
}

/// `s` without the trailing characters of `class`.
pub open spec fn trimmed_end(s: Seq<char>, class: CharClass) -> Seq<char>
    decreases s.len(),
{
    if s.len() > 0 && class.has(s.last()) {
        trimmed_end(s.drop_last(), class)
    } else {
        s
    }
}

/// `s` without the white space around it.
pub open spec fn trimmed(s: Seq<char>) -> Seq<char> {
    trimmed_end(trimmed_start(s, CharClass::WhiteSpace), CharClass::WhiteSpace)
}

pub proof fn lemma_trimmed_start_is_part(s: Seq<char>, class: CharClass)
    ensures
        exists|k: int| 0 <= k <= s.len() && trimmed_start(s, class) == #[trigger] s.skip(k),
    decreases s.len(),
{
    if s.len() > 0 && class.has(s.first()) {
        lemma_trimmed_start_is_part(s.drop_first(), class);
        let k = choose|k: int|
            0 <= k <= s.drop_first().len() && trimmed_start(s.drop_first(), class)
                == #[trigger] s.drop_first().skip(k);
        assert(s.drop_first().skip(k) =~= s.skip(k + 1));
    } else {
        assert(s =~= s.skip(0));
    }
}

pub proof fn lemma_trimmed_end_is_part(s: Seq<char>, class: CharClass)
    ensures
        exists|k: int| 0 <= k <= s.len() && trimmed_end(s, class) == #[trigger] s.take(k),
    decreases s.len(),
{
    if s.len() > 0 && class.has(s.last()) {
        lemma_trimmed_end_is_part(s.drop_last(), class);
        let k = choose|k: int|
            0 <= k <= s.drop_last().len() && trimmed_end(s.drop_last(), class)
                == #[trigger] s.drop_last().take(k);
        assert(s.drop_last().take(k) =~= s.take(k));
    } else {
        assert(s =~= s.take(s.len() as int));
    }
}

pub proof fn lemma_trimmed_is_part(s: Seq<char>)
    ensures
        exists|i: int, j: int|
            0 <= i <= j <= s.len() && trimmed(s) == #[trigger] s.subrange(i, j),
{
    let class = CharClass::WhiteSpace;
    lemma_trimmed_start_is_part(s, class);
    let i = choose|i: int| 0 <= i <= s.len() && trimmed_start(s, class) == #[trigger] s.skip(i);
    let rest = s.skip(i);
    lemma_trimmed_end_is_part(rest, class);
    let k = choose|k: int| 0 <= k <= rest.len() && trimmed_end(rest, class) == #[trigger] rest.take(k);
    assert(rest.take(k) =~= s.subrange(i, i + k));
}

/// Cuts the leading characters of `class` off.
pub fn trim_start(chars: &[char], class: CharClass) -> (rest: &[char])
    ensures
        rest@ == trimmed_start(chars@, class),
{
    let mut start: usize = 0;
    assert(chars@.skip(0) =~= chars@);
    while start < chars.len() && class.contains(chars[start])
        invariant
            start <= chars.len(),
            trimmed_start(chars@.skip(start as int), class) == trimmed_start(chars@, class),
        decreases chars.len() - start,
    {
        assert(chars@.skip(start as int).drop_first() =~= chars@.skip(start + 1));
        start += 1;
    }
    let rest: &[char] = slice_subrange(chars, start, chars.len());
    assert(rest@ =~= chars@.skip(start as int));
    rest
}

/// Cuts the trailing characters of `class` off.
pub fn trim_end(chars: &[char], class: CharClass) -> (rest: &[char])
    ensures
        rest@ == trimmed_end(chars@, class),
{
    let mut end: usize = chars.len();
    assert(chars@.take(end as int) =~= chars@);
    while end > 0 && class.contains(chars[end - 1])
        invariant
            end <= chars.len(),
            trimmed_end(chars@.take(end as int), class) == trimmed_end(chars@, class),
        decreases end,
    {
        assert(chars@.take(end as int).drop_last() =~= chars@.take(end - 1));
        end -= 1;
    }
    let rest: &[char] = slice_subrange(chars, 0, end);
    assert(rest@ =~= chars@.take(end as int));
    rest
}

/// Cuts the white space around the text off.
pub fn trim(chars: &[char]) -> (rest: &[char])
    ensures
        rest@ == trimmed(chars@),
{
    trim_end(trim_start(chars, CharClass::WhiteSpace), CharClass::WhiteSpace)
}

/// The text of `s` without the white space around it.
pub fn trim_text(s: &str) -> (rest: String)
    ensures
        rest@ == trimmed(s@),
{
    let chars: Vec<char> = to_chars(s);
    from_chars(trim(&chars))
}

// Splitting

/// The pieces of `s` between the characters of `class`: such a character opens a new, empty
/// piece, any other extends the last one.
pub open spec fn pieces(s: Seq<char>, class: CharClass) -> Seq<Seq<char>>
    decreases s.len(),
{
    if s.len() == 0 {
        seq![Seq::<char>::empty()]
    } else {
        let before = pieces(s.drop_last(), class);
        if class.has(s.last()) {
            before.push(Seq::empty())
        } else {
            before.drop_last().push(before.last().push(s.last()))
        }
    }
}

/// The pieces that are not empty, in order.
pub open spec fn filled(list: Seq<Seq<char>>) -> Seq<Seq<char>>
    decreases list.len(),
{
    if list.len() == 0 {
        Seq::empty()
    } else if list.last().len() == 0 {
        filled(list.drop_last())
    } else {
        filled(list.drop_last()).push(list.last())
    }
}

pub proof fn lemma_pieces_not_empty(s: Seq<char>, class: CharClass)
    ensures
        pieces(s, class).len() > 0,
    decreases s.len(),
{
    if s.len() > 0 {
        lemma_pieces_not_empty(s.drop_last(), class);
    }
}

/// Splits the text at the characters of `class`.
pub fn split(chars: &[char], class: CharClass) -> (list: Vec<Vec<char>>)
    ensures
        views(list@) == pieces(chars@, class),
{
    let mut list: Vec<Vec<char>> = Vec::new();
    let mut current: Vec<char> = Vec::new();
    assert(chars@.take(0) =~= Seq::empty());
    for i in 0..chars.len()
        invariant
            views(list@).push(current@) == pieces(chars@.take(i as int), class),
    {
        let c: char = chars[i];
        proof {
            assert(chars@.take(i + 1).drop_last() =~= chars@.take(i as int));
        }
        let ghost before = views(list@).push(current@);
        let ghost closed = views(list@);
        assert(before.drop_last() =~= closed);
        if class.contains(c) {
            let ghost full = current@;
            list.push(current);
            current = Vec::new();
            assert(views(list@) =~= closed.push(full));
        } else {
            current.push(c);
        }
        assert(views(list@).push(current@) == pieces(chars@.take(i + 1), class));
    }
    assert(chars@.take(chars.len() as int) =~= chars@);
    let ghost closed = views(list@);
    let ghost full = current@;
    list.push(current);
    assert(views(list@) =~= closed.push(full));
    list
}

/// Splits the text at the characters of `class` and drops the empty pieces.
pub fn split_filled(chars: &[char], class: CharClass) -> (list: Vec<Vec<char>>)
    ensures
        views(list@) == filled(pieces(chars@, class)),
{
    let parts: Vec<Vec<char>> = split(chars, class);
    let mut list: Vec<Vec<char>> = Vec::new();
    let ghost all = views(parts@);
    assert(all.take(0) =~= Seq::empty());
    assert(views(list@) =~= Seq::empty());
    for part in it: parts
        invariant
            it.seq() == parts@,
            all == views(parts@),
            views(list@) == filled(all.take(it.index())),
    {
        proof {
            let k = it.index();
            assert(all.take(k + 1).drop_last() =~= all.take(k));
            assert(all.take(k + 1).last() == part@);
        }
        let ghost kept = views(list@);
        if part.len() > 0 {
            let ghost text = part@;
            list.push(part);
            assert(views(list@) =~= kept.push(text));
        }
    }
    assert(all.take(all.len() as int) =~= all);
    list
}

// Numbers

/// The decimal digits.
pub open spec fn is_digit(c: char) -> bool {
    '0' <= c <= '9'
}

/// The number that a sequence of decimal digits writes.
pub open spec fn digits_value(s: Seq<char>) -> nat
    decreases s.len(),
{
    if s.len() == 0 {
        0
    } else {
        digits_value(s.drop_last()) * 10 + (s.last() as nat - '0' as nat) as nat
    }
}

/// Whether `s` is made of decimal digits alone.
pub open spec fn all_digits(s: Seq<char>) -> bool {
    forall|i: int| 0 <= i < s.len() ==> is_digit(#[trigger] s[i])
}

/// `s` without one leading plus sign.
pub open spec fn without_plus(s: Seq<char>) -> Seq<char> {
    if s.len() > 0 && s[0] == '+' {
        s.skip(1)
    } else {
        s
    }
}

/// The number that `s` writes as an optional plus sign and decimal digits, if it does and if the
/// number fits.
pub open spec fn number_value(s: Seq<char>) -> Option<u64> {
    let digits = without_plus(s);
    if digits.len() > 0 && all_digits(digits) && digits_value(digits) <= u64::MAX {
        Some(digits_value(digits) as u64)
    } else {
        None
    }
}

proof fn lemma_digits_value_grows(s: Seq<char>, k: int)
    requires
        0 <= k <= s.len(),
    ensures
        digits_value(s.take(k)) <= digits_value(s),
    decreases s.len() - k,
{
    if k < s.len() {
        assert(s.take(k + 1).drop_last() =~= s.take(k));
        lemma_digits_value_grows(s, k + 1);
    } else {
        assert(s.take(k) =~= s);
    }
}

/// Reads a number: an optional plus sign and decimal digits, nothing else.
pub fn parse_number(chars: &[char]) -> (number: Option<u64>)
    ensures
        number == number_value(chars@),
{
    let digits: &[char] = if chars.len() > 0 && chars[0] == '+' {
        slice_subrange(chars, 1, chars.len())
    } else {
        chars
    };
    assert(digits@ =~= without_plus(chars@));
    if digits.len() == 0 {
        return None;
    }
    let mut value: u64 = 0;
    assert(digits@.take(0) =~= Seq::empty());
    for i in 0..digits.len()
        invariant
            digits@ == without_plus(chars@),
            value == digits_value(digits@.take(i as int)),
            forall|j: int| 0 <= j < i ==> is_digit(digits@[j]),
    {
        let c: char = digits[i];
        if !('0' <= c && c <= '9') {
            assert(!is_digit(digits@[i as int]));
            return None;
        }
        let digit: u64 = c as u64 - '0' as u64;
        proof {
            assert(digits@.take(i + 1).drop_last() =~= digits@.take(i as int));
            assert(digits_value(digits@.take(i + 1)) == value * 10 + digit);
            lemma_digits_value_grows(digits@, i + 1);
        }
        if value > (u64::MAX - digit) / 10 {
            return None;
        }
        value = value * 10 + digit;
    }
    assert(digits@.take(digits.len() as int) =~= digits@);
    Some(value)
}

/// The character of the decimal digit `d`.
pub open spec fn digit_char(d: nat) -> char {
    ('0' as nat + d) as char
}

/// The decimal digits of `n`, without leading zeros.
pub open spec fn decimal(n: nat) -> Seq<char>
    decreases n,
{
    if n < 10 {
        seq![digit_char(n)]
    } else {
        decimal(n / 10).push(digit_char(n % 10))
    }
}

/// Appends the decimal digits of `n`.
pub fn push_decimal(out: &mut String, n: u64)
    ensures
        final(out)@ == old(out)@ + decimal(n as nat),
    decreases n,
{
    if n >= 10 {
        push_decimal(out, n / 10);
    }
    let digit: u8 = (n % 10) as u8;
    out.push((48 + digit) as char);
}

/// The decimal digits of `n`.
pub fn decimal_text(n: u64) -> (s: String)
    ensures
        s@ == decimal(n as nat),
{
    let mut s: String = String::new();
    push_decimal(&mut s, n);
    s
}

/// What is written as a number is read back as the same number.
pub proof fn law_decimal_reads_back(n: u64)
    ensures
        number_value(decimal(n as nat)) == Some(n),
{
    lemma_decimal_digits(n as nat);
}

pub proof fn lemma_decimal_digits(n: nat)
    ensures
        decimal(n).len() > 0,
        all_digits(decimal(n)),
        digits_value(decimal(n)) == n,
    decreases n,
{
    if n < 10 {
        assert(decimal(n).drop_last() =~= Seq::empty());
        assert(digits_value(Seq::<char>::empty()) == 0);
    } else {
        lemma_decimal_digits(n / 10);
        assert(decimal(n).drop_last() =~= decimal(n / 10));
    }
}

// Comparing and joining

/// Whether the text `a` comes before `b`: by the first character in which they differ, or as its
/// beginning.
pub open spec fn precedes(a: Seq<char>, b: Seq<char>) -> bool
    decreases a.len(),
{
    if b.len() == 0 {
        false
    } else if a.len() == 0 {
        true
    } else if a.first() != b.first() {
        a.first() < b.first()
    } else {
        precedes(a.drop_first(), b.drop_first())
    }
}

/// How two texts are ordered.
#[derive(Clone, Copy, Debug, PartialEq, Eq)]
pub enum Order {
    Before,
    Same,
    After,
}

/// Of two texts, one comes first unless they are the same.
pub proof fn law_precedes_is_total(a: Seq<char>, b: Seq<char>)
    ensures
        precedes(a, b) || precedes(b, a) || a == b,
        precedes(a, b) ==> !precedes(b, a) && a != b,
    decreases a.len(),
{
    if a.len() > 0 && b.len() > 0 && a.first() == b.first() {
        law_precedes_is_total(a.drop_first(), b.drop_first());
        assert(a =~= seq![a.first()] + a.drop_first());
        assert(b =~= seq![b.first()] + b.drop_first());
    } else if a.len() == 0 && b.len() == 0 {
        assert(a =~= b);
    }
}

/// The order of texts is transitive.
pub proof fn law_precedes_is_transitive(a: Seq<char>, b: Seq<char>, c: Seq<char>)
    requires
        precedes(a, b),
        precedes(b, c),
    ensures
        precedes(a, c),
    decreases a.len(),
{
    if a.len() > 0 && a.first() == b.first() && b.first() == c.first() {
        law_precedes_is_transitive(a.drop_first(), b.drop_first(), c.drop_first());
    }
}

/// Orders two texts character by character.
pub fn compare(a: &str, b: &str) -> (order: Order)
    ensures
        order is Before <==> precedes(a@, b@),
        order is Same <==> a@ == b@,
        order is After <==> precedes(b@, a@),
{
    let x: Vec<char> = to_chars(a);
    let y: Vec<char> = to_chars(b);
    let mut i: usize = 0;
    proof {
        law_precedes_is_total(a@, b@);
        assert(x@.skip(0) =~= x@);
        assert(y@.skip(0) =~= y@);
    }
    while i < x.len() && i < y.len() && x[i] == y[i]
        invariant
            i <= x.len(),
            i <= y.len(),
            x@.take(i as int) == y@.take(i as int),
            precedes(x@.skip(i as int), y@.skip(i as int)) == precedes(x@, y@),
            precedes(y@.skip(i as int), x@.skip(i as int)) == precedes(y@, x@),
        decreases x.len() - i,
    {
        proof {
            assert(x@.skip(i as int).drop_first() =~= x@.skip(i + 1));
            assert(y@.skip(i as int).drop_first() =~= y@.skip(i + 1));
            assert(x@.take(i + 1) =~= x@.take(i as int).push(x@[i as int]));
            assert(y@.take(i + 1) =~= y@.take(i as int).push(y@[i as int]));
        }
        i += 1;
    }
    if i == x.len() && i == y.len() {
        assert(x@ =~= x@.take(i as int));
        assert(y@ =~= y@.take(i as int));
        Order::Same
    } else if i == x.len() || (i < y.len() && x[i] < y[i]) {
        Order::Before
    } else {
        Order::After
    }
}

/// Tests whether two texts are the same.
pub fn same_text(a: &str, b: &str) -> (same: bool)
    ensures
        same == (a@ == b@),
{
    match compare(a, b) {
        Order::Same => true,
        _ => false,
    }
}

/// Tests whether `chars` are the characters of `text`.
pub fn is_text(chars: &[char], text: &str) -> (same: bool)
    ensures
        same == (chars@ == text@),
{
    let other: Vec<char> = to_chars(text);
    if chars.len() != other.len() {
        return false;
    }
    for i in 0..chars.len()
        invariant
            chars@.len() == other@.len(),
            other@ == text@,
            forall|j: int| 0 <= j < i ==> chars@[j] == other@[j],
    {
        if chars[i] != other[i] {
            assert(chars@[i as int] != text@[i as int]);
            return false;
        }
    }
    assert(chars@ =~= other@);
    true
}

/// Tests whether `c` is among `chars`.
pub fn contains_char(chars: &[char], c: char) -> (found: bool)
    ensures
        found == chars@.contains(c),
{
    for i in 0..chars.len()
        invariant
            forall|j: int| 0 <= j < i ==> chars@[j] != c,
    {
        if chars[i] == c {
            return true;
        }
    }
    false
}

/// Tests whether `chars` begin with the characters of `text`.
pub fn starts_with_text(chars: &[char], text: &str) -> (starts: bool)
    ensures
        starts == text@.is_prefix_of(chars@),
{
    let head: Vec<char> = to_chars(text);
    if chars.len() < head.len() {
        return false;
    }
    is_text(slice_subrange(chars, 0, head.len()), text)
}

/// The texts of `list` after each other.
pub open spec fn concatenated(list: Seq<Seq<char>>) -> Seq<char>
    decreases list.len(),
{
    if list.len() == 0 {
        Seq::empty()
    } else {
        concatenated(list.drop_last()) + list.last()
    }
}

/// Whether `part` stands somewhere in `whole`.
pub open spec fn occurs_in(part: Seq<char>, whole: Seq<char>) -> bool {
    exists|i: int, j: int| 0 <= i <= j <= whole.len() && part == #[trigger] whole.subrange(i, j)
}

/// Whether `part` stands in `whole` from the character `i` on.
spec fn stands_at(part: Seq<char>, whole: Seq<char>, i: int) -> bool {
    i + part.len() <= whole.len() && part == whole.subrange(i, i + part.len())
}

/// Tests whether the text `part` stands somewhere in `whole`.
pub fn contains_text(whole: &str, part: &str) -> (found: bool)
    ensures
        found == occurs_in(part@, whole@),
{
    let haystack: Vec<char> = to_chars(whole);
    let length: usize = to_chars(part).len();
    if length > haystack.len() {
        return false;
    }
    let last: usize = haystack.len() - length;
    for start in 0..last
        invariant
            haystack@ == whole@,
            length == part@.len(),
            last == haystack.len() - length,
            forall|i: int| 0 <= i < start ==> !#[trigger] stands_at(part@, whole@, i),
    {
        if is_text(slice_subrange(&haystack, start, start + length), part) {
            return true;
        }
    }
    let found: bool = is_text(slice_subrange(&haystack, last, haystack.len()), part);
    proof {
        if occurs_in(part@, whole@) {
            let (i, j) = choose|i: int, j: int|
                0 <= i <= j <= whole@.len() && part@ == #[trigger] whole@.subrange(i, j);
            assert(j == i + length);
            assert(stands_at(part@, whole@, i));
        }
    }
    found
}

pub proof fn lemma_occurs_in_is_transitive(a: Seq<char>, b: Seq<char>, c: Seq<char>)
    requires
        occurs_in(a, b),
        occurs_in(b, c),
    ensures
        occurs_in(a, c),
{
    let (i, j) = choose|i: int, j: int|
        0 <= i <= j <= b.len() && a == #[trigger] b.subrange(i, j);
    let (k, l) = choose|k: int, l: int|
        0 <= k <= l <= c.len() && b == #[trigger] c.subrange(k, l);
    assert(a =~= c.subrange(k + i, k + j));
}

pub proof fn lemma_piece_occurs(list: Seq<Seq<char>>, i: int)
    requires
        0 <= i < list.len(),
    ensures
        occurs_in(list[i], concatenated(list)),
    decreases list.len(),
{
    let head = concatenated(list.drop_last());
    let whole = concatenated(list);
    if i == list.len() - 1 {
        assert(list.last() =~= whole.subrange(head.len() as int, whole.len() as int));
    } else {
        lemma_piece_occurs(list.drop_last(), i);
        assert(head =~= whole.subrange(0, head.len() as int));
        lemma_occurs_in_is_transitive(list[i], head, whole);
    }
}

/// The texts of `list` with `separator` between them.
pub open spec fn joined(list: Seq<Seq<char>>, separator: Seq<char>) -> Seq<char>
    decreases list.len(),
{
    if list.len() == 0 {
        Seq::empty()
    } else if list.len() == 1 {
        list[0]
    } else {
        joined(list.drop_last(), separator) + separator + list.last()
    }
}

/// Joins the texts of `list` with `separator` between them.
pub fn join(list: &[String], separator: &str) -> (s: String)
    ensures
        s@ == joined(views(list@), separator@),
{
    let mut s: String = String::new();
    let ghost all = views(list@);
    for i in 0..list.len()
        invariant
            all == views(list@),
            s@ == joined(all.take(i as int), separator@),
    {
        assert(all.take(i + 1).drop_last() =~= all.take(i as int));
        if i > 0 {
            s.append(separator);
        } else {
            assert(all.take(1)[0] == list@[0]@);
        }
        s.append(list[i].as_str());
        assert(s@ =~= joined(all.take(i + 1), separator@));
    }
    assert(all.take(list.len() as int) =~= all);
    s
}

} // verus!

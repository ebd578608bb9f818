//! Text as sequences of characters: trimming, splitting, joining, numbers in decimal.
use vstd::prelude::*;
use vstd::string::*;

verus! {

/// `String::push` adds one character at the end.
pub assume_specification[ String::push ](s: &mut String, c: char)
    ensures
        final(s)@ == old(s)@.push(c),
;

/// `==` on `str` compares the characters.
pub assume_specification[ <str as PartialEq>::eq ](a: &str, b: &str) -> (r: bool)
    ensures
        r == (a@ == b@),
;

/// A set of characters to trim or to split at.
#[derive(Clone, Copy, Debug)]
pub enum CharSet {
    /// Unicode white space.
    White,
    /// One character alone.
    Only(char),
    /// What a title does not start with: white space and marks of emphasis.
    Leading,
    /// What a title does not end in: white space, marks of emphasis and closing marks.
    Trailing,
    /// All but digits, `.` and `v`.
    NoVersion,
}

/// The characters with the Unicode property `White_Space`.
pub open spec fn is_white(c: char) -> bool {
    let n = c as u32;
    ||| 0x9 <= n <= 0xD
    ||| n == 0x20
    ||| n == 0x85
    ||| n == 0xA0
    ||| n == 0x1680
    ||| 0x2000 <= n <= 0x200A
    ||| n == 0x2028
    ||| n == 0x2029
    ||| n == 0x202F
    ||| n == 0x205F
    ||| n == 0x3000
}

/// Marks of emphasis and code.
pub open spec fn is_markup(c: char) -> bool {
    c == '*' || c == '_' || c == '`'
}

/// Marks that close a sentence or a clause.
pub open spec fn is_closing(c: char) -> bool {
    c == '.' || c == ',' || c == ';' || c == ':' || c == '!' || c == '?'
}

impl CharSet {
    pub open spec fn spec_has(self, c: char) -> bool {
        match self {
            CharSet::White => is_white(c),
            CharSet::Only(x) => c == x,
            CharSet::Leading => is_white(c) || is_markup(c),
            CharSet::Trailing => is_white(c) || is_markup(c) || is_closing(c),
            CharSet::NoVersion => !is_digit(c) && c != '.' && c != 'v',
        }
    }

    pub fn has(&self, c: char) -> (r: bool)
        ensures
            r == self.spec_has(c),
    {
        match self {
            CharSet::White => white(c),
            CharSet::Only(x) => c == *x,
            CharSet::Leading => white(c) || markup(c),
            CharSet::Trailing => white(c) || markup(c) || c == '.' || c == ',' || c == ';' || c
                == ':' || c == '!' || c == '?',
            CharSet::NoVersion => !('0' <= c && c <= '9') && c != '.' && c != 'v',
        }
    }
}

fn white(c: char) -> (r: bool)
    ensures
        r == is_white(c),
{
    let n: u32 = c as u32;
    (0x9 <= n && n <= 0xD) || n == 0x20 || n == 0x85 || n == 0xA0 || n == 0x1680 || (0x2000 <= n
        && n <= 0x200A) || n == 0x2028 || n == 0x2029 || n == 0x202F || n == 0x205F || n == 0x3000
}

fn markup(c: char) -> (r: bool)
    ensures
        r == is_markup(c),
{
    c == '*' || c == '_' || c == '`'
}

/// `s` without the characters of `set` at its front.
pub open spec fn trim_front(s: Seq<char>, set: CharSet) -> Seq<char>
    decreases s.len(),
{
    if s.len() > 0 && set.spec_has(s[0]) {
        trim_front(s.subrange(1, s.len() as int), set)
    } else {
        s
    }
}

/// `s` without the characters of `set` at its end.
pub open spec fn trim_back(s: Seq<char>, set: CharSet) -> Seq<char>
    decreases s.len(),
{
    if s.len() > 0 && set.spec_has(s.last()) {
        trim_back(s.drop_last(), set)
    } else {
        s
    }
}

/// `s` without the characters of `set` at both ends.
pub open spec fn trim_both(s: Seq<char>, set: CharSet) -> Seq<char> {
    trim_back(trim_front(s, set), set)
}

/// `s` without white space at both ends.
pub open spec fn trimmed(s: Seq<char>) -> Seq<char> {
    trim_both(s, CharSet::White)
}

/// The pieces of `s` between the characters of `set`.
pub open spec fn pieces(s: Seq<char>, set: CharSet) -> Seq<Seq<char>>
    decreases s.len(),
{
    if s.len() == 0 {
        seq![Seq::<char>::empty()]
    } else {
        let before = pieces(s.drop_last(), set);
        if set.spec_has(s.last()) {
            before.push(Seq::<char>::empty())
        } else {
            before.update(before.len() - 1, before.last().push(s.last()))
        }
    }
}

/// The non-empty runs of `s` between white space.
pub open spec fn words(s: Seq<char>) -> Seq<Seq<char>> {
    pieces(s, CharSet::White).filter(|w: Seq<char>| w.len() > 0)
}

/// The parts one after another, with `sep` between them.
pub open spec fn joined(parts: Seq<Seq<char>>, sep: Seq<char>) -> Seq<char>
    decreases parts.len(),
{
    if parts.len() == 0 {
        Seq::<char>::empty()
    } else if parts.len() == 1 {
        parts[0]
    } else {
        joined(parts.drop_last(), sep) + sep + parts.last()
    }
}

/// The texts of strings.
pub open spec fn texts(v: Seq<String>) -> Seq<Seq<char>> {
    Seq::new(v.len(), |i: int| v[i]@)
}

/// The text of an optional string.
pub open spec fn opt_text(s: Option<String>) -> Option<Seq<char>> {
    match s {
        Some(t) => Some(t@),
        None => None,
    }
}

pub open spec fn starts_with(s: Seq<char>, p: Seq<char>) -> bool {
    p.len() <= s.len() && s.subrange(0, p.len() as int) == p
}

/// Whether `t` stands in `s` from position `i` on.
pub open spec fn occurs_at(s: Seq<char>, t: Seq<char>, i: int) -> bool {
    0 <= i && i + t.len() <= s.len() && s.subrange(i, i + t.len()) == t
}

/// Whether `t` stands somewhere in `s`.
pub open spec fn contains_text(s: Seq<char>, t: Seq<char>) -> bool {
    exists|i: int| occurs_at(s, t, i)
}

pub open spec fn digit(d: nat) -> char {
    (48 + d) as char
}

/// `n` in decimal.
pub open spec fn decimal(n: nat) -> Seq<char>
    decreases n,
{
    if n < 10 {
        seq![digit(n)]
    } else {
        decimal(n / 10).push(digit(n % 10))
    }
}

pub open spec fn is_digit(c: char) -> bool {
    '0' <= c <= '9'
}

pub open spec fn all_digits(s: Seq<char>) -> bool {
    forall|i: int| 0 <= i < s.len() ==> is_digit(#[trigger] s[i])
}

/// The number that a run of decimal digits stands for.
pub open spec fn digits_value(s: Seq<char>) -> nat
    decreases s.len(),
{
    if s.len() == 0 {
        0
    } else {
        (digits_value(s.drop_last()) * 10 + (s.last() as u32 - 48)) as nat
    }
}

/// The unsigned number that a text stands for: digits, after at most one `+`.
pub open spec fn unsigned_value(s: Seq<char>) -> Option<nat> {
    let d = if s.len() > 0 && s[0] == '+' {
        s.subrange(1, s.len() as int)
    } else {
        s
    };
    if d.len() > 0 && all_digits(d) {
        Some(digits_value(d))
    } else {
        None
    }
}

/// The signed number that a text stands for: digits, after at most one sign.
pub open spec fn signed_value(s: Seq<char>) -> Option<int> {
    if s.len() > 0 && s[0] == '-' {
        let d = s.subrange(1, s.len() as int);
        if d.len() > 0 && all_digits(d) {
            Some(-(digits_value(d) as int))
        } else {
            None
        }
    } else {
        match unsigned_value(s) {
            Some(n) => Some(n as int),
            None => None,
        }
    }
}

/// Unsigned numbers up to `max`.
pub open spec fn unsigned_up_to(s: Seq<char>, max: nat) -> Option<nat> {
    match unsigned_value(s) {
        Some(n) => if n <= max {
            Some(n)
        } else {
            None
        },
        None => None,
    }
}

/// The characters of a text.
pub fn chars_of(s: &str) -> (v: Vec<char>)
    ensures
        v@ == s@,
{
    let mut v: Vec<char> = Vec::new();
    for c in it: s.chars()
        invariant
            it.seq() == s@,
            v@ == s@.take(it.index()),
    {
        assert(s@.take(it.index() + 1) =~= s@.take(it.index()).push(c));
        v.push(c);
    }
    assert(s@.take(s@.len() as int) =~= s@);
    v
}

/// The text made of the characters from `from` up to `to`.
pub fn string_of(v: &[char], from: usize, to: usize) -> (s: String)
    requires
        from <= to <= v@.len(),
    ensures
        s@ == v@.subrange(from as int, to as int),
{
    let mut s = String::new();
    let mut i: usize = from;
    while i < to
        invariant
            from <= i <= to <= v@.len(),
            s@ == v@.subrange(from as int, i as int),
        decreases to - i,
    {
        s.push(v[i]);
        i += 1;
        assert(v@.subrange(from as int, i as int) =~= v@.subrange(from as int, i - 1).push(
            v@[i - 1],
        ));
    }
    s
}

/// Where `trim_front` starts.
pub fn front_of(v: &[char], set: CharSet) -> (i: usize)
    ensures
        i <= v@.len(),
        v@.subrange(i as int, v@.len() as int) == trim_front(v@, set),
{
    let mut i: usize = 0;
    assert(v@.subrange(0, v@.len() as int) =~= v@);
    while i < v.len() && set.has(v[i])
        invariant
            i <= v@.len(),
            trim_front(v@.subrange(i as int, v@.len() as int), set) == trim_front(v@, set),
        decreases v@.len() - i,
    {
        assert(v@.subrange(i as int, v@.len() as int).subrange(1, v@.len() - i)
            =~= v@.subrange(i + 1, v@.len() as int));
        i += 1;
    }
    i
}

/// Where `trim_back` of the characters from `from` on ends.
pub fn back_of(v: &[char], from: usize, set: CharSet) -> (j: usize)
    requires
        from <= v@.len(),
    ensures
        from <= j <= v@.len(),
        v@.subrange(from as int, j as int) == trim_back(
            v@.subrange(from as int, v@.len() as int),
            set,
        ),
{
    let mut j: usize = v.len();
    while j > from && set.has(v[j - 1])
        invariant
            from <= j <= v@.len(),
            trim_back(v@.subrange(from as int, j as int), set) == trim_back(
                v@.subrange(from as int, v@.len() as int),
                set,
            ),
        decreases j,
    {
        assert(v@.subrange(from as int, j as int).drop_last() =~= v@.subrange(
            from as int,
            j - 1,
        ));
        j -= 1;
    }
    j
}

/// The text without the characters of `set` at both ends.
pub fn trim_set(s: &str, set: CharSet) -> (t: String)
    ensures
        t@ == trim_both(s@, set),
{
    let v = chars_of(s);
    let i: usize = front_of(v.as_slice(), set);
    let j: usize = back_of(v.as_slice(), i, set);
    string_of(v.as_slice(), i, j)
}

/// The text without the characters of `set` at its end.
pub fn trim_end_set(s: &str, set: CharSet) -> (t: String)
    ensures
        t@ == trim_back(s@, set),
{
    let v = chars_of(s);
    let j: usize = back_of(v.as_slice(), 0, set);
    assert(v@.subrange(0, v@.len() as int) =~= v@);
    string_of(v.as_slice(), 0, j)
}

/// The text without white space at both ends.
pub fn trim(s: &str) -> (t: String)
    ensures
        t@ == trimmed(s@),
{
    trim_set(s, CharSet::White)
}

/// The pieces of a text between the characters of `set`.
pub fn split(s: &str, set: CharSet) -> (r: Vec<String>)
    ensures
        texts(r@) == pieces(s@, set),
{
    let v = chars_of(s);
    let mut done: Vec<String> = Vec::new();
    let mut cur = String::new();
    let mut i: usize = 0;
    assert(texts(done@).push(cur@) =~= pieces(v@.take(0), set));
    while i < v.len()
        invariant
            i <= v@.len(),
            texts(done@).push(cur@) == pieces(v@.take(i as int), set),
        decreases v@.len() - i,
    {
        let ghost before = texts(done@).push(cur@);
        assert(v@.take(i + 1).drop_last() =~= v@.take(i as int));
        if set.has(v[i]) {
            let ghost d0 = done@;
            done.push(cur);
            cur = String::new();
            assert(texts(done@) =~= before);
        } else {
            cur.push(v[i]);
            assert(texts(done@).push(cur@) =~= before.update(
                before.len() - 1,
                before.last().push(v@[i as int]),
            ));
        }
        i += 1;
    }
    assert(v@.take(i as int) =~= v@);
    let ghost before = texts(done@).push(cur@);
    done.push(cur);
    assert(texts(done@) =~= before);
    done
}

/// The strings that hold at least one character.
pub fn non_empty(v: Vec<String>) -> (r: Vec<String>)
    ensures
        texts(r@) == texts(v@).filter(|w: Seq<char>| w.len() > 0),
{
    let ghost keep = |w: Seq<char>| w.len() > 0;
    let mut r: Vec<String> = Vec::new();
    let mut i: usize = 0;
    assert(texts(v@).take(0).filter(keep) =~= Seq::<Seq<char>>::empty()) by {
        reveal(Seq::filter);
    }
    while i < v.len()
        invariant
            i <= v@.len(),
            keep == (|w: Seq<char>| w.len() > 0),
            texts(r@) == texts(v@).take(i as int).filter(keep),
        decreases v@.len() - i,
    {
        let ghost r0 = r@;
        assert(texts(v@).take(i + 1).drop_last() =~= texts(v@).take(i as int));
        proof {
            reveal(Seq::filter);
        }
        if !v[i].as_str().is_empty() {
            r.push(v[i].clone());
            assert(texts(r@) =~= texts(r0).push(v@[i as int]@));
        }
        i += 1;
    }
    assert(texts(v@).take(i as int) =~= texts(v@));
    r
}

/// The non-empty runs of a text between white space.
pub fn split_words(s: &str) -> (r: Vec<String>)
    ensures
        texts(r@) == words(s@),
{
    non_empty(split(s, CharSet::White))
}

/// The strings one after another, with `sep` between them.
pub fn join(v: &[String], sep: &str) -> (r: String)
    ensures
        r@ == joined(texts(v@), sep@),
{
    let mut r = String::new();
    let mut i: usize = 0;
    while i < v.len()
        invariant
            i <= v@.len(),
            r@ == joined(texts(v@).take(i as int), sep@),
        decreases v@.len() - i,
    {
        assert(texts(v@).take(i + 1).drop_last() =~= texts(v@).take(i as int));
        if i > 0 {
            r.append(sep);
        }
        r.append(v[i].as_str());
        i += 1;
        assert(r@ =~= joined(texts(v@).take(i as int), sep@));
    }
    assert(texts(v@).take(i as int) =~= texts(v@));
    r
}

/// Whether `t` stands in `v` from position `at` on.
pub fn matches_at(v: &[char], t: &[char], at: usize) -> (r: bool)
    requires
        at <= v@.len(),
    ensures
        r == occurs_at(v@, t@, at as int),
{
    let n: usize = v.len();
    if t.len() > n - at {
        return false;
    }
    let mut i: usize = 0;
    while i < t.len()
        invariant
            i <= t@.len(),
            n == v@.len(),
            at + t@.len() <= n,
            forall|k: int| 0 <= k < i ==> v@[at + k] == #[trigger] t@[k],
        decreases t@.len() - i,
    {
        if v[at + i] != t[i] {
            assert(v@.subrange(at as int, at + t@.len())[i as int] != t@[i as int]);
            return false;
        }
        i += 1;
    }
    assert(v@.subrange(at as int, at + t@.len()) =~= t@);
    true
}

/// Whether `t` stands somewhere in `s`.
pub fn has_text(s: &str, t: &str) -> (r: bool)
    ensures
        r == contains_text(s@, t@),
{
    find_text(s, t).is_some()
}

/// The first position at which `t` stands in `s`, counted in characters.
pub fn find_text(s: &str, t: &str) -> (r: Option<usize>)
    ensures
        r is None <==> !contains_text(s@, t@),
        r matches Some(i) ==> occurs_at(s@, t@, i as int) && forall|k: int|
            0 <= k < i ==> !occurs_at(s@, t@, k),
{
    let v = chars_of(s);
    let w = chars_of(t);
    let mut i: usize = 0;
    while i < v.len()
        invariant
            i <= v@.len(),
            v@ == s@,
            w@ == t@,
            forall|k: int| 0 <= k < i ==> !occurs_at(s@, t@, k),
        decreases v@.len() - i,
    {
        if matches_at(v.as_slice(), w.as_slice(), i) {
            return Some(i);
        }
        i += 1;
    }
    if matches_at(v.as_slice(), w.as_slice(), i) {
        return Some(i);
    }
    None
}

pub fn has_prefix(s: &str, p: &str) -> (r: bool)
    ensures
        r == starts_with(s@, p@),
{
    let v = chars_of(s);
    let w = chars_of(p);
    matches_at(v.as_slice(), w.as_slice(), 0)
}

/// What follows the prefix `p`, where the text has it.
pub fn strip_prefix(s: &str, p: &str) -> (r: Option<String>)
    ensures
        r is Some <==> starts_with(s@, p@),
        r matches Some(t) ==> t@ == s@.subrange(p@.len() as int, s@.len() as int),
{
    let v = chars_of(s);
    let w = chars_of(p);
    if matches_at(v.as_slice(), w.as_slice(), 0) {
        Some(string_of(v.as_slice(), w.len(), v.len()))
    } else {
        None
    }
}

/// A decimal digit.
pub fn digit_of(d: u64) -> (c: char)
    requires
        d < 10,
    ensures
        c == digit(d as nat),
{
    (48u8 + d as u8) as char
}

/// `n` in decimal.
pub fn decimal_of(n: u64) -> (s: String)
    ensures
        s@ == decimal(n as nat),
    decreases n,
{
    if n < 10 {
        let mut s = String::new();
        s.push(digit_of(n));
        assert(s@ =~= seq![digit(n as nat)]);
        s
    } else {
        let mut s = decimal_of(n / 10);
        s.push(digit_of(n % 10));
        s
    }
}

/// More digits never stand for a smaller number.
proof fn digits_value_grows(s: Seq<char>, i: int)
    requires
        0 <= i <= s.len(),
        all_digits(s),
    ensures
        digits_value(s.take(i)) <= digits_value(s),
    decreases s.len(),
{
    if i == s.len() {
        assert(s.take(i) =~= s);
    } else {
        let t = s.drop_last();
        assert(all_digits(t)) by {
            assert forall|k: int| 0 <= k < t.len() implies is_digit(#[trigger] t[k]) by {
                assert(t[k] == s[k]);
            }
        }
        digits_value_grows(t, i);
        assert(t.take(i) =~= s.take(i));
        assert(is_digit(s[s.len() - 1]));
    }
}

/// The number that the digits from `from` on stand for, if it is at most `max`.
fn number_from(v: &[char], from: usize, max: u64) -> (r: Option<u64>)
    requires
        from <= v@.len(),
    ensures
        ({
            let d = v@.subrange(from as int, v@.len() as int);
            r == if d.len() > 0 && all_digits(d) && digits_value(d) <= max {
                Some(digits_value(d) as u64)
            } else {
                None::<u64>
            }
        }),
{
    let ghost d = v@.subrange(from as int, v@.len() as int);
    if from == v.len() {
        return None;
    }
    let mut acc: u64 = 0;
    let mut i: usize = from;
    while i < v.len()
        invariant
            from <= i <= v@.len(),
            d == v@.subrange(from as int, v@.len() as int),
            all_digits(d.take(i - from)),
            acc == digits_value(d.take(i - from)),
            acc <= max,
        decreases v@.len() - i,
    {
        let c: char = v[i];
        assert(d[i - from] == c);
        if c < '0' || c > '9' {
            assert(!is_digit(d[i - from]));
            return None;
        }
        let x: u64 = c as u64 - 48;
        assert(d.take(i - from + 1).drop_last() =~= d.take(i - from));
        assert(all_digits(d.take(i - from + 1))) by {
            let t = d.take(i - from + 1);
            assert forall|k: int| 0 <= k < t.len() implies is_digit(#[trigger] t[k]) by {
                if k < i - from {
                    assert(t[k] == d.take(i - from)[k]);
                }
            }
        }
        let next: u128 = acc as u128 * 10 + x as u128;
        assert(next == digits_value(d.take(i - from + 1)));
        if next > max as u128 {
            proof {
                if all_digits(d) {
                    digits_value_grows(d, i - from + 1);
                }
            }
            return None;
        }
        acc = next as u64;
        i += 1;
    }
    assert(d.take(i - from) =~= d);
    Some(acc)
}

/// The unsigned number that a text stands for, if it is at most `max`.
pub fn parse_unsigned(s: &str, max: u64) -> (r: Option<u64>)
    ensures
        r == match unsigned_up_to(s@, max as nat) {
            Some(n) => Some(n as u64),
            None => None::<u64>,
        },
{
    let v = chars_of(s);
    if v.len() > 0 && v[0] == '+' {
        number_from(v.as_slice(), 1, max)
    } else {
        assert(v@.subrange(0, v@.len() as int) =~= v@);
        number_from(v.as_slice(), 0, max)
    }
}

/// The signed number that a text stands for, if it fits.
pub fn parse_signed(s: &str) -> (r: Option<i64>)
    ensures
        r == match signed_value(s@) {
            Some(n) => if i64::MIN <= n <= i64::MAX {
                Some(n as i64)
            } else {
                None::<i64>
            },
            None => None::<i64>,
        },
{
    let v = chars_of(s);
    if v.len() > 0 && v[0] == '-' {
        match number_from(v.as_slice(), 1, 0x8000_0000_0000_0000) {
            Some(n) => if n == 0x8000_0000_0000_0000 {
                Some(i64::MIN)
            } else {
                Some(-(n as i64))
            },
            None => None,
        }
    } else {
        match parse_unsigned(s, 0x7fff_ffff_ffff_ffff) {
            Some(n) => Some(n as i64),
            None => None,
        }
    }
}

/// Which characters each set holds.
pub proof fn law_character_sets_hold_what_they_name(c: char, x: char)
    ensures
        CharSet::White.spec_has(c) <==> is_white(c),
        CharSet::Only(x).spec_has(c) <==> c == x,
        CharSet::Leading.spec_has(c) <==> is_white(c) || c == '*' || c == '_' || c == '`',
        CharSet::Trailing.spec_has(c) <==> is_white(c) || c == '*' || c == '_' || c == '`' || c
            == '.' || c == ',' || c == ';' || c == ':' || c == '!' || c == '?',
        !CharSet::NoVersion.spec_has(c) <==> c == '.' || c == 'v' || '0' <= c <= '9',
        is_digit(c) <==> '0' <= c <= '9',
        is_markup(c) <==> c == '*' || c == '_' || c == '`',
        is_closing(c) <==> c == '.' || c == ',' || c == ';' || c == ':' || c == '!' || c == '?',
{
}

/// White space is what Unicode calls so: these characters and no others.
pub proof fn law_white_space_is_that_of_unicode(c: char)
    ensures
        is_white(c) <==> seq![
            0x9u32,
            0xA,
            0xB,
            0xC,
            0xD,
            0x20,
            0x85,
            0xA0,
            0x1680,
            0x2000,
            0x2001,
            0x2002,
            0x2003,
            0x2004,
            0x2005,
            0x2006,
            0x2007,
            0x2008,
            0x2009,
            0x200A,
            0x2028,
            0x2029,
            0x202F,
            0x205F,
            0x3000,
        ].contains(c as u32),
{
    let all = seq![
        0x9u32,
        0xA,
        0xB,
        0xC,
        0xD,
        0x20,
        0x85,
        0xA0,
        0x1680,
        0x2000,
        0x2001,
        0x2002,
        0x2003,
        0x2004,
        0x2005,
        0x2006,
        0x2007,
        0x2008,
        0x2009,
        0x200A,
        0x2028,
        0x2029,
        0x202F,
        0x205F,
        0x3000,
    ];
    let n = c as u32;
    if is_white(c) {
        let at = if n <= 0xD {
            n - 0x9
        } else if n == 0x20 {
            5int
        } else if n == 0x85 {
            6
        } else if n == 0xA0 {
            7
        } else if n == 0x1680 {
            8
        } else if n <= 0x200A {
            n - 0x2000 + 9
        } else if n == 0x2028 {
            20
        } else if n == 0x2029 {
            21
        } else if n == 0x202F {
            22
        } else if n == 0x205F {
            23
        } else {
            24
        };
        assert(all[at] == n);
    }
}

/// Trimming the front takes characters of the set and stops at the first other one.
pub proof fn law_front_is_trimmed_up_to_the_first_other(s: Seq<char>, set: CharSet) -> (k: int)
    ensures
        0 <= k <= s.len(),
        trim_front(s, set) == s.subrange(k, s.len() as int),
        forall|i: int| 0 <= i < k ==> set.spec_has(#[trigger] s[i]),
        k < s.len() ==> !set.spec_has(s[k]),
    decreases s.len(),
{
    if s.len() > 0 && set.spec_has(s[0]) {
        let t = s.subrange(1, s.len() as int);
        let k = law_front_is_trimmed_up_to_the_first_other(t, set);
        assert(t.subrange(k, t.len() as int) =~= s.subrange(k + 1, s.len() as int));
        assert forall|i: int| 0 <= i < k + 1 implies set.spec_has(#[trigger] s[i]) by {
            if i > 0 {
                assert(t[i - 1] == s[i]);
            }
        }
        k + 1
    } else {
        assert(s.subrange(0, s.len() as int) =~= s);
        0
    }
}

/// Trimming the end takes characters of the set and stops at the last other one.
pub proof fn law_end_is_trimmed_down_to_the_last_other(s: Seq<char>, set: CharSet) -> (k: int)
    ensures
        0 <= k <= s.len(),
        trim_back(s, set) == s.subrange(0, k),
        forall|i: int| k <= i < s.len() ==> set.spec_has(#[trigger] s[i]),
        k > 0 ==> !set.spec_has(s[k - 1]),
    decreases s.len(),
{
    if s.len() > 0 && set.spec_has(s.last()) {
        let t = s.drop_last();
        let k = law_end_is_trimmed_down_to_the_last_other(t, set);
        assert(t.subrange(0, k) =~= s.subrange(0, k));
        assert forall|i: int| k <= i < s.len() implies set.spec_has(#[trigger] s[i]) by {
            if i < t.len() {
                assert(t[i] == s[i]);
            }
        }
        k
    } else {
        assert(s.subrange(0, s.len() as int) =~= s);
        s.len() as int
    }
}

/// Trimming both ends keeps what stands between the first and the last character that is not in
/// the set, all of it.
pub proof fn law_trimming_keeps_what_stands_between(s: Seq<char>, set: CharSet) -> (ends: (
    int,
    int,
))
    ensures
        0 <= ends.0 <= ends.1 <= s.len(),
        trim_both(s, set) == s.subrange(ends.0, ends.1),
        forall|i: int|
            0 <= i < ends.0 || ends.1 <= i < s.len() ==> set.spec_has(#[trigger] s[i]),
        ends.0 < ends.1 ==> !set.spec_has(s[ends.0]) && !set.spec_has(s[ends.1 - 1]),
        trimmed(s) == trim_both(s, CharSet::White),
{
    let k = law_front_is_trimmed_up_to_the_first_other(s, set);
    let t = s.subrange(k, s.len() as int);
    let l = law_end_is_trimmed_down_to_the_last_other(t, set);
    assert(t.subrange(0, l) =~= s.subrange(k, k + l));
    assert forall|i: int| 0 <= i < k || k + l <= i < s.len() implies set.spec_has(
        #[trigger] s[i],
    ) by {
        if i >= k {
            assert(t[i - k] == s[i]);
        }
    }
    if l > 0 {
        assert(t[0] == s[k]);
        assert(t[l - 1] == s[k + l - 1]);
    }
    (k, k + l)
}

/// A text without a character of the set is one piece, whole.
pub proof fn law_unbroken_text_is_one_piece(s: Seq<char>, set: CharSet)
    requires
        forall|i: int| 0 <= i < s.len() ==> !set.spec_has(#[trigger] s[i]),
    ensures
        pieces(s, set) == seq![s],
    decreases s.len(),
{
    if s.len() > 0 {
        let t = s.drop_last();
        assert forall|i: int| 0 <= i < t.len() implies !set.spec_has(#[trigger] t[i]) by {
            assert(t[i] == s[i]);
        }
        law_unbroken_text_is_one_piece(t, set);
        assert(!set.spec_has(s[s.len() - 1]));
        assert(t.push(s.last()) =~= s);
        assert(pieces(s, set) =~= seq![s]);
    } else {
        assert(s =~= Seq::<char>::empty());
    }
}

/// A character of the set parts the pieces before it from those behind it, and is in none.
pub proof fn law_separator_parts_the_pieces(
    before: Seq<char>,
    c: char,
    after: Seq<char>,
    set: CharSet,
)
    requires
        set.spec_has(c),
    ensures
        pieces(before.push(c) + after, set) == pieces(before, set) + pieces(after, set),
        pieces(after, set).len() >= 1,
    decreases after.len(),
{
    let s = before.push(c) + after;
    if after.len() == 0 {
        assert(s =~= before.push(c));
        assert(s.drop_last() =~= before);
        assert(pieces(s, set) =~= pieces(before, set) + pieces(after, set));
    } else {
        let t = after.drop_last();
        law_separator_parts_the_pieces(before, c, t, set);
        assert(s.drop_last() =~= before.push(c) + t);
        assert(s.last() == after.last());
        assert(pieces(s, set) =~= pieces(before, set) + pieces(after, set));
    }
}

/// Joining puts the separator between any two parts and nowhere else.
pub proof fn law_joining_puts_the_separator_between(
    a: Seq<Seq<char>>,
    b: Seq<Seq<char>>,
    sep: Seq<char>,
    part: Seq<char>,
)
    requires
        a.len() > 0,
        b.len() > 0,
    ensures
        joined(Seq::<Seq<char>>::empty(), sep) == Seq::<char>::empty(),
        joined(seq![part], sep) == part,
        joined(a + b, sep) == joined(a, sep) + sep + joined(b, sep),
    decreases b.len(),
{
    let t = b.drop_last();
    assert((a + b).drop_last() =~= a + t);
    assert((a + b).last() == b.last());
    if b.len() == 1 {
        assert(a + t =~= a);
        assert(b[0] == b.last());
    } else {
        law_joining_puts_the_separator_between(a, t, sep, part);
        assert(joined(a + b, sep) =~= joined(a, sep) + sep + joined(b, sep));
    }
}

/// Texts are those of the strings, one for one; a string that is missing has none.
pub proof fn law_texts_are_those_of_the_strings(v: Seq<String>, s: String)
    ensures
        texts(v).len() == v.len(),
        forall|i: int| 0 <= i < v.len() ==> #[trigger] texts(v)[i] == v[i]@,
        opt_text(Some(s)) == Some(s@),
        opt_text(None) is None,
{
}

/// A text starts with a prefix exactly where it is the prefix and something behind it.
pub proof fn law_prefix_is_what_a_text_starts_with(s: Seq<char>, p: Seq<char>)
    ensures
        starts_with(s, p) <==> exists|rest: Seq<char>| s == #[trigger] (p + rest),
{
    if starts_with(s, p) {
        let rest = s.subrange(p.len() as int, s.len() as int);
        assert forall|i: int| 0 <= i < p.len() implies s[i] == p[i] by {
            assert(s.subrange(0, p.len() as int)[i] == p[i]);
        }
        assert(s =~= p + rest);
    }
    if exists|rest: Seq<char>| s == #[trigger] (p + rest) {
        let rest = choose|rest: Seq<char>| s == #[trigger] (p + rest);
        assert(s.subrange(0, p.len() as int) =~= p);
    }
}

/// A text stands in another at a place exactly where the other is made of so many characters, the
/// text and something behind it.
pub proof fn law_text_stands_where_it_is_found(s: Seq<char>, t: Seq<char>, i: int)
    ensures
        occurs_at(s, t, i) <==> 0 <= i && i + t.len() <= s.len() && s == s.take(i) + t + s.skip(
            i + t.len(),
        ),
        contains_text(s, t) <==> exists|a: Seq<char>, b: Seq<char>| s == #[trigger] (a + t + b),
{
    if 0 <= i && i + t.len() <= s.len() {
        let whole = s.take(i) + t + s.skip(i + t.len());
        if occurs_at(s, t, i) {
            assert forall|k: int| 0 <= k < t.len() implies s[i + k] == t[k] by {
                assert(s.subrange(i, i + t.len())[k] == t[k]);
            }
            assert(s =~= whole);
        }
        if s == whole {
            assert(s.subrange(i, i + t.len()) =~= t);
        }
    }
    if contains_text(s, t) {
        let at = choose|at: int| occurs_at(s, t, at);
        let a = s.take(at);
        let b = s.skip(at + t.len());
        assert forall|k: int| 0 <= k < t.len() implies s[at + k] == t[k] by {
            assert(s.subrange(at, at + t.len())[k] == t[k]);
        }
        assert(s =~= a + t + b);
    }
    if exists|a: Seq<char>, b: Seq<char>| s == #[trigger] (a + t + b) {
        let (a, b) = choose|a: Seq<char>, b: Seq<char>| s == #[trigger] (a + t + b);
        assert(s.subrange(a.len() as int, a.len() as int + t.len()) =~= t);
        assert(occurs_at(s, t, a.len() as int));
    }
}

/// A further digit makes a number ten times as large and adds its own value; a zero in front
/// changes nothing.
pub proof fn law_digits_count_by_tens(s: Seq<char>, c: char)
    ensures
        digits_value(Seq::<char>::empty()) == 0,
        is_digit(c) ==> digits_value(s.push(c)) == 10 * digits_value(s) + (c as u32 - '0' as u32),
        digits_value(seq!['0'] + s) == digits_value(s),
    decreases s.len(),
{
    assert(s.push(c).drop_last() =~= s);
    if s.len() == 0 {
        reveal_with_fuel(digits_value, 2);
        assert(seq!['0'] + s =~= seq!['0']);
        assert(seq!['0'].drop_last() =~= Seq::<char>::empty());
    } else {
        law_digits_count_by_tens(s.drop_last(), c);
        assert((seq!['0'] + s).drop_last() =~= seq!['0'] + s.drop_last());
    }
}

/// A number in decimal reads back as itself. It is made of digits, and the first is no zero
/// unless the number is one.
pub proof fn law_decimal_reads_back(n: nat)
    ensures
        all_digits(decimal(n)),
        digits_value(decimal(n)) == n,
        decimal(n).len() > 0,
        decimal(n)[0] == '0' <==> n == 0,
        n == 0 ==> decimal(n).len() == 1,
        unsigned_value(decimal(n)) == Some(n),
        signed_value(decimal(n)) == Some(n as int),
        signed_value(seq!['-'] + decimal(n)) == Some(-(n as int)),
    decreases n,
{
    reveal_with_fuel(digits_value, 2);
    let d = decimal(n);
    if n < 10 {
        assert(d.drop_last() =~= Seq::<char>::empty());
        assert(is_digit(digit(n)));
    } else {
        law_decimal_reads_back(n / 10);
        let t = decimal(n / 10);
        assert(d.drop_last() =~= t);
        assert(is_digit(digit(n % 10)));
        assert forall|i: int| 0 <= i < d.len() implies is_digit(#[trigger] d[i]) by {
            if i < t.len() {
                assert(d[i] == t[i]);
            }
        }
        assert(d[0] == t[0]);
    }
    assert(is_digit(d[0]));
    let m = seq!['-'] + d;
    assert(m.subrange(1, m.len() as int) =~= d);
}

/// A text stands for an unsigned number exactly where it is made of digits, at least one, behind
/// at most one plus sign; a minus sign makes the number negative.
pub proof fn law_numbers_are_digits_behind_a_sign(s: Seq<char>, max: nat, n: nat)
    ensures
        unsigned_value(s) is Some <==> (s.len() > 0 && all_digits(s)) || (s.len() > 1 && s[0] == '+'
            && all_digits(s.skip(1))),
        s.len() > 0 && all_digits(s) ==> unsigned_value(s) == Some(digits_value(s)),
        s.len() > 1 && s[0] == '+' && all_digits(s.skip(1)) ==> unsigned_value(s) == Some(
            digits_value(s.skip(1)),
        ),
        signed_value(s) is Some <==> unsigned_value(s) is Some || (s.len() > 1 && s[0] == '-'
            && all_digits(s.skip(1))),
        s.len() > 1 && s[0] == '-' && all_digits(s.skip(1)) ==> signed_value(s) == Some(
            -(digits_value(s.skip(1)) as int),
        ),
        unsigned_value(s) == Some(n) ==> signed_value(s) == Some(n as int),
        unsigned_up_to(s, max) == Some(n) <==> unsigned_value(s) == Some(n) && n <= max,
{
    if s.len() > 0 {
        assert(s.skip(1) =~= s.subrange(1, s.len() as int));
        if all_digits(s) {
            assert(is_digit(s[0]));
        }
    }
}

/// A text without white space is one word, whole, and an empty one none; white space parts the
/// words before it from those behind it.
pub proof fn law_white_space_parts_words(before: Seq<char>, c: char, after: Seq<char>)
    requires
        is_white(c),
    ensures
        words(Seq::<char>::empty()).len() == 0,
        before.len() > 0 && (forall|i: int|
            0 <= i < before.len() ==> !is_white(#[trigger] before[i])) ==> words(before) == seq![
            before,
        ],
        words(before.push(c) + after) == words(before) + words(after),
{
    reveal(Seq::filter);
    let keep = |w: Seq<char>| w.len() > 0;
    let none = seq![Seq::<char>::empty()];
    assert(pieces(Seq::<char>::empty(), CharSet::White) =~= none);
    assert(none.drop_last() =~= Seq::<Seq<char>>::empty());
    assert(none.drop_last().filter(keep) =~= Seq::<Seq<char>>::empty());
    assert(!keep(none.last()));
    assert(none.filter(keep) =~= Seq::<Seq<char>>::empty());
    if before.len() > 0 && (forall|i: int|
        0 <= i < before.len() ==> !is_white(#[trigger] before[i])) {
        assert forall|i: int| 0 <= i < before.len() implies !CharSet::White.spec_has(
            #[trigger] before[i],
        ) by {
            assert(!is_white(before[i]));
        }
        law_unbroken_text_is_one_piece(before, CharSet::White);
        let one = seq![before];
        assert(one.drop_last() =~= Seq::<Seq<char>>::empty());
        assert(one.drop_last().filter(keep) =~= Seq::<Seq<char>>::empty());
        assert(keep(one.last()));
        assert(one.filter(keep) =~= one);
    }
    law_separator_parts_the_pieces(before, c, after, CharSet::White);
    Seq::filter_distributes_over_add(
        pieces(before, CharSet::White),
        pieces(after, CharSet::White),
        keep,
    );
}

} // verus!

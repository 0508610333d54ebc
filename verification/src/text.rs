//! Character-level helpers on strings, with their mathematical counterparts on `Seq<char>`.

use vstd::prelude::*;
use vstd::string::*;

verus! {

/// `p` is a prefix of `s`.
pub open spec fn is_prefix(p: Seq<char>, s: Seq<char>) -> bool {
    p.len() <= s.len() && s.subrange(0, p.len() as int) == p
}

/// `p` is a suffix of `s`.
pub open spec fn is_suffix(p: Seq<char>, s: Seq<char>) -> bool {
    p.len() <= s.len() && s.subrange(s.len() - p.len(), s.len() as int) == p
}

/// The index of the first `c` in `s`, or the length of `s` where `s` holds none.
pub open spec fn first_index(s: Seq<char>, c: char) -> int
    decreases s.len(),
{
    if s.len() == 0 {
        0
    } else if s[0] == c {
        0
    } else {
        1 + first_index(s.drop_first(), c)
    }
}

/// The index of the last `c` in `s`, or `-1` where `s` holds none.
pub open spec fn last_index(s: Seq<char>, c: char) -> int
    decreases s.len(),
{
    if s.len() == 0 {
        -1
    } else if s.last() == c {
        s.len() - 1
    } else {
        last_index(s.drop_last(), c)
    }
}

/// `first_index` is the least position that holds `c`.
pub proof fn lemma_first_index(s: Seq<char>, c: char)
    ensures
        0 <= first_index(s, c) <= s.len(),
        first_index(s, c) < s.len() ==> s[first_index(s, c)] == c,
        forall|j: int| 0 <= j < first_index(s, c) ==> s[j] != c,
    decreases s.len(),
{
    if s.len() != 0 && s[0] != c {
        let t = s.drop_first();
        lemma_first_index(t, c);
        assert forall|j: int| 0 <= j < first_index(s, c) implies s[j] != c by {
            if j > 0 {
                assert(t[j - 1] == s[j]);
            }
        }
    }
}

/// A position that holds `c` and has no `c` before it is the first index.
pub proof fn lemma_first_index_unique(s: Seq<char>, c: char, i: int)
    requires
        0 <= i <= s.len(),
        i < s.len() ==> s[i] == c,
        forall|j: int| 0 <= j < i ==> s[j] != c,
    ensures
        first_index(s, c) == i,
{
    lemma_first_index(s, c);
    let f = first_index(s, c);
    if f < i {
        assert(s[f] != c);
    }
}

/// `last_index` is the greatest position that holds `c`.
pub proof fn lemma_last_index(s: Seq<char>, c: char)
    ensures
        -1 <= last_index(s, c) < s.len(),
        last_index(s, c) >= 0 ==> s[last_index(s, c)] == c,
        forall|j: int| last_index(s, c) < j < s.len() ==> s[j] != c,
    decreases s.len(),
{
    if s.len() != 0 && s.last() != c {
        let t = s.drop_last();
        lemma_last_index(t, c);
        assert forall|j: int| last_index(s, c) < j < s.len() implies s[j] != c by {
            if j < s.len() - 1 {
                assert(t[j] == s[j]);
            }
        }
    }
}

/// A position that holds `c` and has no `c` after it is the last index.
pub proof fn lemma_last_index_unique(s: Seq<char>, c: char, i: int)
    requires
        -1 <= i < s.len(),
        i >= 0 ==> s[i] == c,
        forall|j: int| i < j < s.len() ==> s[j] != c,
    ensures
        last_index(s, c) == i,
{
    lemma_last_index(s, c);
    let l = last_index(s, c);
    if l > i {
        assert(s[l] != c);
    }
}

/// The characters of `s` one by one.
pub fn chars_of(s: &str) -> (r: Vec<char>)
    ensures
        r@ == s@,
{
    broadcast use vstd::string::group_string_axioms;

    let mut r: Vec<char> = Vec::new();
    for c in it: s.chars()
        invariant
            it.seq() == s@,
            r@ == it.seq().subrange(0, it.index() as int),
    {
        r.push(c);
    }
    r
}

/// Whether the two character sequences are equal.
pub fn chars_eq(a: &Vec<char>, b: &Vec<char>) -> (r: bool)
    ensures
        r == (a@ == b@),
{
    if a.len() != b.len() {
        return false;
    }
    let mut i: usize = 0;
    while i < a.len()
        invariant
            i <= a.len() == b.len(),
            forall|j: int| 0 <= j < i ==> a@[j] == b@[j],
        decreases a.len() - i,
    {
        if a[i] != b[i] {
            return false;
        }
        i += 1;
    }
    assert(a@ =~= b@);
    true
}

/// Whether the two strings hold the same characters.
pub fn str_eq(a: &str, b: &str) -> (r: bool)
    ensures
        r == (a@ == b@),
{
    let ac = chars_of(a);
    let bc = chars_of(b);
    chars_eq(&ac, &bc)
}

/// Whether `s` holds `p` from position `at` on.
pub fn chars_match_at(s: &Vec<char>, at: usize, p: &Vec<char>) -> (r: bool)
    ensures
        r == (at + p@.len() <= s@.len() && s@.subrange(at as int, at + p@.len()) == p@),
{
    if at > s.len() || p.len() > s.len() - at {
        return false;
    }
    let mut i: usize = 0;
    while i < p.len()
        invariant
            at + p.len() <= s.len(),
            i <= p.len(),
            forall|j: int| 0 <= j < i ==> s@[at + j] == p@[j],
        decreases p.len() - i,
    {
        if s[at + i] != p[i] {
            assert(s@.subrange(at as int, at + p@.len())[i as int] != p@[i as int]);
            return false;
        }
        i += 1;
    }
    assert(s@.subrange(at as int, at + p@.len()) =~= p@);
    true
}

/// Whether `s` starts with `p`.
pub fn starts_with(s: &str, p: &str) -> (r: bool)
    ensures
        r == is_prefix(p@, s@),
{
    let sc = chars_of(s);
    let pc = chars_of(p);
    chars_match_at(&sc, 0, &pc)
}

/// Whether `s` ends with `p`.
pub fn ends_with(s: &str, p: &str) -> (r: bool)
    ensures
        r == is_suffix(p@, s@),
{
    let sc = chars_of(s);
    let pc = chars_of(p);
    if pc.len() > sc.len() {
        return false;
    }
    chars_match_at(&sc, sc.len() - pc.len(), &pc)
}

/// The position of the first `c` in `s`.
pub fn find_char(s: &Vec<char>, c: char) -> (r: Option<usize>)
    ensures
        match r {
            Some(i) => i < s@.len() && i == first_index(s@, c),
            None => first_index(s@, c) == s@.len(),
        },
{
    let mut i: usize = 0;
    while i < s.len()
        invariant
            i <= s.len(),
            forall|j: int| 0 <= j < i ==> s@[j] != c,
        decreases s.len() - i,
    {
        if s[i] == c {
            proof {
                lemma_first_index_unique(s@, c, i as int);
            }
            return Some(i);
        }
        i += 1;
    }
    proof {
        lemma_first_index_unique(s@, c, s@.len() as int);
    }
    None
}

/// The position of the last `c` in `s`.
pub fn rfind_char(s: &Vec<char>, c: char) -> (r: Option<usize>)
    ensures
        match r {
            Some(i) => i < s@.len() && i == last_index(s@, c),
            None => last_index(s@, c) == -1,
        },
{
    let mut i: usize = s.len();
    while i > 0
        invariant
            i <= s.len(),
            forall|j: int| i <= j < s@.len() ==> s@[j] != c,
        decreases i,
    {
        i -= 1;
        if s[i] == c {
            proof {
                lemma_last_index_unique(s@, c, i as int);
            }
            return Some(i);
        }
    }
    proof {
        lemma_last_index_unique(s@, c, -1);
    }
    None
}

/// The three strings one after the other.
pub fn concat3(a: &str, b: &str, c: &str) -> (r: String)
    ensures
        r@ == a@ + b@ + c@,
{
    let mut r = String::from_str(a);
    r.append(b);
    r.append(c);
    r
}

/// The parts one after the other, with `sep` between each two.
pub open spec fn joined(parts: Seq<Seq<char>>, sep: Seq<char>) -> Seq<char>
    decreases parts.len(),
{
    if parts.len() == 0 {
        Seq::empty()
    } else if parts.len() == 1 {
        parts[0]
    } else {
        joined(parts.drop_last(), sep) + sep + parts.last()
    }
}

/// The views of the strings of `v`.
pub open spec fn views(v: Seq<String>) -> Seq<Seq<char>> {
    v.map_values(|s: String| s@)
}

/// The strings of `parts` one after the other, with `sep` between each two.
pub fn join(parts: &Vec<String>, sep: &str) -> (r: String)
    ensures
        r@ == joined(views(parts@), sep@),
{
    let mut r = String::new();
    let mut i: usize = 0;
    while i < parts.len()
        invariant
            i <= parts.len(),
            r@ == joined(views(parts@).take(i as int), sep@),
        decreases parts.len() - i,
    {
        proof {
            let next = views(parts@).take(i + 1);
            assert(next.drop_last() == views(parts@).take(i as int));
            assert(next.last() == parts@[i as int]@);
        }
        if i > 0 {
            r.append(sep);
        } else {
            assert(r@ + parts@[i as int]@ == parts@[i as int]@);
        }
        r.append(parts[i].as_str());
        i += 1;
    }
    assert(views(parts@).take(parts@.len() as int) == views(parts@));
    r
}

/// The decimal digit `d` as a character.
pub open spec fn digit_char(d: int) -> char {
    if d == 0 {
        '0'
    } else if d == 1 {
        '1'
    } else if d == 2 {
        '2'
    } else if d == 3 {
        '3'
    } else if d == 4 {
        '4'
    } else if d == 5 {
        '5'
    } else if d == 6 {
        '6'
    } else if d == 7 {
        '7'
    } else if d == 8 {
        '8'
    } else {
        '9'
    }
}

/// The decimal notation of `n`, without leading zeros.
pub open spec fn decimal(n: nat) -> Seq<char>
    decreases n,
{
    if n < 10 {
        seq![digit_char(n as int)]
    } else {
        decimal(n / 10).push(digit_char((n % 10) as int))
    }
}

fn digit_str(d: u64) -> (r: &'static str)
    requires
        d < 10,
    ensures
        r@ == seq![digit_char(d as int)],
{
    proof {
        reveal_strlit("0");
        reveal_strlit("1");
        reveal_strlit("2");
        reveal_strlit("3");
        reveal_strlit("4");
        reveal_strlit("5");
        reveal_strlit("6");
        reveal_strlit("7");
        reveal_strlit("8");
        reveal_strlit("9");
    }
    let r = if d == 0 {
        "0"
    } else if d == 1 {
        "1"
    } else if d == 2 {
        "2"
    } else if d == 3 {
        "3"
    } else if d == 4 {
        "4"
    } else if d == 5 {
        "5"
    } else if d == 6 {
        "6"
    } else if d == 7 {
        "7"
    } else if d == 8 {
        "8"
    } else {
        "9"
    };
    assert(r@ =~= seq![digit_char(d as int)]);
    r
}

/// The decimal notation of `n`.
pub fn decimal_string(n: u64) -> (r: String)
    ensures
        r@ == decimal(n as nat),
    decreases n,
{
    if n < 10 {
        String::from_str(digit_str(n))
    } else {
        let mut r = decimal_string(n / 10);
        r.append(digit_str(n % 10));
        assert(r@ =~= decimal((n / 10) as nat).push(digit_char((n % 10) as int)));
        r
    }
}

/// Whether `c` is one of the ten decimal digits.
pub open spec fn is_digit(c: char) -> bool {
    '0' <= c <= '9'
}

/// The value of the decimal digit `c`.
pub open spec fn digit_value(c: char) -> nat {
    (c as int - '0' as int) as nat
}

/// The number that the decimal digits of `s` denote.
pub open spec fn decimal_value(s: Seq<char>) -> nat
    decreases s.len(),
{
    if s.len() == 0 {
        0
    } else {
        decimal_value(s.drop_last()) * 10 + digit_value(s.last())
    }
}

/// Whether `s` is a nonempty run of decimal digits.
pub open spec fn is_number(s: Seq<char>) -> bool {
    s.len() > 0 && forall|i: int| 0 <= i < s.len() ==> is_digit(#[trigger] s[i])
}

/// The number that `s` denotes, if `s` is a run of decimal digits whose value fits 64 bits.
pub fn parse_u64(s: &Vec<char>) -> (r: Option<u64>)
    ensures
        r is Some <==> is_number(s@) && decimal_value(s@) <= u64::MAX,
        r is Some ==> r->0 == decimal_value(s@),
{
    if s.len() == 0 {
        return None;
    }
    let mut value: u64 = 0;
    let mut i: usize = 0;
    while i < s.len()
        invariant
            i <= s.len(),
            forall|j: int| 0 <= j < i ==> is_digit(#[trigger] s@[j]),
            value == decimal_value(s@.take(i as int)),
        decreases s.len() - i,
    {
        let c = s[i];
        proof {
            let next = s@.take(i + 1);
            assert(next.drop_last() == s@.take(i as int));
            assert(next.last() == c);
            lemma_decimal_value_monotone(s@, i + 1);
        }
        if !(c >= '0' && c <= '9') {
            return None;
        }
        let d: u64 = (c as u32 - '0' as u32) as u64;
        assert(d == digit_value(c));
        let shifted = match value.checked_mul(10) {
            Some(v) => v,
            None => {
                return None;
            },
        };
        value = match shifted.checked_add(d) {
            Some(v) => v,
            None => {
                return None;
            },
        };
        i += 1;
    }
    assert(s@.take(s@.len() as int) == s@);
    Some(value)
}

/// A prefix of a run of digits denotes no more than the whole run.
pub proof fn lemma_decimal_value_monotone(s: Seq<char>, i: int)
    requires
        0 <= i <= s.len(),
    ensures
        decimal_value(s.take(i)) <= decimal_value(s),
    decreases s.len() - i,
{
    if i == s.len() {
        assert(s.take(i) == s);
    } else {
        lemma_decimal_value_monotone(s, i + 1);
        let next = s.take(i + 1);
        assert(next.drop_last() == s.take(i));
        assert(decimal_value(next) >= decimal_value(s.take(i))) by (nonlinear_arith)
            requires
                decimal_value(next) == decimal_value(s.take(i)) * 10 + digit_value(next.last()),
        ;
    }
}

/// The number of bytes that `c` takes in UTF-8.
pub open spec fn utf8_width(c: char) -> nat {
    if (c as u32) < 0x80 {
        1
    } else if (c as u32) < 0x800 {
        2
    } else if (c as u32) < 0x10000 {
        3
    } else {
        4
    }
}

/// The number of bytes that `s` takes in UTF-8.
pub open spec fn utf8_len(s: Seq<char>) -> nat
    decreases s.len(),
{
    if s.len() == 0 {
        0
    } else {
        utf8_len(s.drop_last()) + utf8_width(s.last())
    }
}

/// The number of leading characters of `s` that fit into `limit` bytes of UTF-8.
pub open spec fn fitting_chars(s: Seq<char>, limit: nat) -> nat
    decreases s.len(),
{
    if s.len() == 0 {
        0
    } else if utf8_len(s) <= limit {
        s.len()
    } else {
        fitting_chars(s.drop_last(), limit)
    }
}

/// The longest prefix of `s` that takes at most `limit` bytes in UTF-8.
pub open spec fn truncated(s: Seq<char>, limit: nat) -> Seq<char> {
    s.take(fitting_chars(s, limit) as int)
}

/// A longer prefix takes at least as many bytes.
pub proof fn lemma_utf8_len_monotone(s: Seq<char>, i: int, j: int)
    requires
        0 <= i <= j <= s.len(),
    ensures
        utf8_len(s.take(i)) <= utf8_len(s.take(j)),
    decreases j - i,
{
    if i < j {
        lemma_utf8_len_monotone(s, i, j - 1);
        assert(s.take(j).drop_last() == s.take(j - 1));
    }
}

/// `fitting_chars` is the greatest count of leading characters within the limit.
pub proof fn lemma_fitting_chars(s: Seq<char>, limit: nat, k: int)
    requires
        0 <= k <= s.len(),
        utf8_len(s.take(k)) <= limit,
        k < s.len() ==> utf8_len(s.take(k + 1)) > limit,
    ensures
        fitting_chars(s, limit) == k,
    decreases s.len(),
{
    if s.len() == 0 {
    } else if k == s.len() {
        assert(s.take(k) == s);
    } else {
        lemma_utf8_len_monotone(s, k + 1, s.len() as int);
        assert(s.take(s.len() as int) == s);
        let t = s.drop_last();
        assert(t.take(k) == s.take(k));
        if k < t.len() {
            assert(t.take(k + 1) == s.take(k + 1));
        }
        lemma_fitting_chars(t, limit, k);
    }
}

/// The longest prefix of `s` that takes at most `limit` bytes in UTF-8, so that no character is
/// cut in two.
pub fn truncate_utf8(s: &str, limit: usize) -> (r: String)
    ensures
        r@ == truncated(s@, limit as nat),
{
    let chars = chars_of(s);
    let mut k: usize = 0;
    let mut bytes: usize = 0;
    while k < chars.len()
        invariant
            chars@ == s@,
            k <= chars.len(),
            bytes == utf8_len(s@.take(k as int)),
            bytes <= limit,
        decreases chars.len() - k,
    {
        let c = chars[k];
        let code: u32 = c as u32;
        let width: usize = if code < 0x80 {
            1
        } else if code < 0x800 {
            2
        } else if code < 0x10000 {
            3
        } else {
            4
        };
        proof {
            assert(s@.take(k + 1).drop_last() == s@.take(k as int));
            assert(width == utf8_width(c));
        }
        if width > limit - bytes {
            proof {
                lemma_fitting_chars(s@, limit as nat, k as int);
            }
            return String::from_str(s.substring_char(0, k));
        }
        bytes += width;
        k += 1;
    }
    proof {
        lemma_fitting_chars(s@, limit as nat, k as int);
        assert(s@.take(k as int) == s@);
    }
    String::from_str(s)
}

/// `s` with every `::` turned into one `/`.
pub open spec fn colons_to_slashes(s: Seq<char>) -> Seq<char>
    decreases s.len(),
{
    if s.len() == 0 {
        Seq::empty()
    } else if s.len() >= 2 && s[0] == ':' && s[1] == ':' {
        seq!['/'] + colons_to_slashes(s.skip(2))
    } else {
        seq![s[0]] + colons_to_slashes(s.skip(1))
    }
}

/// The directories that a module path names: every `::` becomes a `/`.
pub fn module_to_dir(module: &str) -> (r: String)
    ensures
        r@ == colons_to_slashes(module@),
{
    let chars = chars_of(module);
    let mut r = String::new();
    let mut i: usize = 0;
    assert(module@.skip(0) == module@);
    assert(Seq::<char>::empty() + colons_to_slashes(module@) == colons_to_slashes(module@));
    while i < chars.len()
        invariant
            chars@ == module@,
            i <= chars.len(),
            r@ + colons_to_slashes(module@.skip(i as int)) == colons_to_slashes(module@),
        decreases chars.len() - i,
    {
        let rest = Ghost(module@.skip(i as int));
        if chars[i] == ':' && i + 1 < chars.len() && chars[i + 1] == ':' {
            proof {
                reveal_strlit("/");
                assert(rest@.skip(2) == module@.skip(i + 2));
                assert("/"@ =~= seq!['/']);
                assert((r@ + seq!['/']) + colons_to_slashes(module@.skip(i + 2)) == r@ + (seq!['/']
                    + colons_to_slashes(module@.skip(i + 2))));
            }
            r.append("/");
            i += 2;
        } else {
            let one = module.substring_char(i, i + 1);
            proof {
                assert(rest@.skip(1) == module@.skip(i + 1));
                assert(one@ =~= seq![rest@[0]]);
                assert((r@ + seq![rest@[0]]) + colons_to_slashes(module@.skip(i + 1)) == r@ + (
                seq![rest@[0]] + colons_to_slashes(module@.skip(i + 1))));
            }
            r.append(one);
            i += 1;
        }
    }
    assert(r@ + Seq::<char>::empty() == r@);
    r
}

/// Whether `c` is white space of ASCII: a space, a tab, a line feed, a form feed or a carriage
/// return.
pub open spec fn is_blank(c: char) -> bool {
    c == ' ' || c == '\t' || c == '\n' || c == '\x0c' || c == '\r'
}

/// Whether `c` is white space of ASCII.
pub fn is_blank_char(c: char) -> (r: bool)
    ensures
        r == is_blank(c),
{
    c == ' ' || c == '\t' || c == '\n' || c == '\x0c' || c == '\r'
}

/// The number of leading characters of `s` that are white space.
pub open spec fn leading_blanks(s: Seq<char>) -> nat
    decreases s.len(),
{
    if s.len() == 0 || !is_blank(s[0]) {
        0
    } else {
        1 + leading_blanks(s.skip(1))
    }
}

/// The number of leading characters of `s` that are no white space.
pub open spec fn word_len(s: Seq<char>) -> nat
    decreases s.len(),
{
    if s.len() == 0 || is_blank(s[0]) {
        0
    } else {
        1 + word_len(s.skip(1))
    }
}

/// `s` without its leading white space.
pub open spec fn trim_start(s: Seq<char>) -> Seq<char> {
    s.skip(leading_blanks(s) as int)
}

/// The words of `s`: its maximal runs of characters that are no white space, in their order.
pub open spec fn tokens(s: Seq<char>) -> Seq<Seq<char>>
    decreases s.len(),
{
    if s.len() == 0 {
        Seq::empty()
    } else if is_blank(s[0]) {
        tokens(s.skip(1))
    } else if 1 <= word_len(s) <= s.len() {
        seq![s.take(word_len(s) as int)] + tokens(s.skip(word_len(s) as int))
    } else {
        Seq::empty()
    }
}

/// The word that starts `s` ends before the first white space.
pub proof fn lemma_word_len(s: Seq<char>, n: int)
    requires
        0 <= n <= s.len(),
        forall|j: int| 0 <= j < n ==> !is_blank(s[j]),
        n < s.len() ==> is_blank(s[n]),
    ensures
        word_len(s) == n,
    decreases n,
{
    if n > 0 {
        let t = s.skip(1);
        assert forall|j: int| 0 <= j < n - 1 implies !is_blank(t[j]) by {
            assert(t[j] == s[j + 1]);
        }
        lemma_word_len(t, n - 1);
    }
}

/// The leading white space of `s` ends before the first other character.
pub proof fn lemma_leading_blanks(s: Seq<char>, n: int)
    requires
        0 <= n <= s.len(),
        forall|j: int| 0 <= j < n ==> is_blank(s[j]),
        n < s.len() ==> !is_blank(s[n]),
    ensures
        leading_blanks(s) == n,
    decreases n,
{
    if n > 0 {
        let t = s.skip(1);
        assert forall|j: int| 0 <= j < n - 1 implies is_blank(t[j]) by {
            assert(t[j] == s[j + 1]);
        }
        lemma_leading_blanks(t, n - 1);
    }
}

/// The number of leading characters of `s` that are white space.
pub fn count_leading_blanks(s: &Vec<char>) -> (r: usize)
    ensures
        r == leading_blanks(s@),
        r <= s@.len(),
{
    let mut i: usize = 0;
    while i < s.len() && is_blank_char(s[i])
        invariant
            i <= s.len(),
            forall|j: int| 0 <= j < i ==> is_blank(s@[j]),
        decreases s.len() - i,
    {
        i += 1;
    }
    proof {
        lemma_leading_blanks(s@, i as int);
    }
    i
}

/// The words of `line`: its maximal runs of characters that are no white space.
pub fn tokenize(line: &str) -> (r: Vec<String>)
    ensures
        views(r@) == tokens(line@),
{
    let chars = chars_of(line);
    let mut r: Vec<String> = Vec::new();
    let mut i: usize = 0;
    assert(line@.skip(0) == line@);
    assert(views(r@) + tokens(line@) == tokens(line@));
    while i < chars.len()
        invariant
            chars@ == line@,
            i <= chars.len(),
            views(r@) + tokens(line@.skip(i as int)) == tokens(line@),
        decreases chars.len() - i,
    {
        let ghost rest = line@.skip(i as int);
        if is_blank_char(chars[i]) {
            assert(rest.skip(1) == line@.skip(i + 1));
            i += 1;
        } else {
            let mut j: usize = i + 1;
            while j < chars.len() && !is_blank_char(chars[j])
                invariant
                    chars@ == line@,
                    i < j <= chars.len(),
                    forall|k: int| i <= k < j ==> !is_blank(line@[k]),
                decreases chars.len() - j,
            {
                j += 1;
            }
            let word = String::from_str(line.substring_char(i, j));
            proof {
                assert forall|k: int| 0 <= k < j - i implies !is_blank(rest[k]) by {
                    assert(rest[k] == line@[i + k]);
                }
                lemma_word_len(rest, j - i);
                assert(rest.take(j - i) =~= line@.subrange(i as int, j as int));
                assert(rest.skip(j - i) == line@.skip(j as int));
                assert(views(r@.push(word)) =~= views(r@) + seq![word@]);
                assert((views(r@) + seq![word@]) + tokens(line@.skip(j as int)) == views(r@) + (
                seq![word@] + tokens(line@.skip(j as int))));
            }
            r.push(word);
            i = j;
        }
    }
    assert(views(r@) + Seq::<Seq<char>>::empty() == views(r@));
    r
}

/// The pieces of `s` between the occurrences of `c`, last piece first, with `sep` between each
/// two.
pub open spec fn reversed_chain(s: Seq<char>, c: char, sep: Seq<char>) -> Seq<char>
    decreases s.len(),
{
    if !(0 <= first_index(s, c) < s.len()) {
        s
    } else {
        reversed_chain(s.skip(first_index(s, c) + 1), c, sep) + sep + s.take(first_index(s, c))
    }
}

/// The pieces of `s` between the occurrences of `c`, last piece first, with `sep` between each
/// two.
pub fn reverse_chain(s: &str, c: char, sep: &str) -> (r: String)
    ensures
        r@ == reversed_chain(s@, c, sep@),
    decreases s@.len(),
{
    let chars = chars_of(s);
    match find_char(&chars, c) {
        Some(i) => {
            proof {
                lemma_first_index(s@, c);
            }
            let head = s.substring_char(0, i);
            let rest = s.substring_char(i + 1, chars.len());
            assert(rest@ =~= s@.skip(i + 1));
            assert(head@ =~= s@.take(i as int));
            let mut r = reverse_chain(rest, c, sep);
            r.append(sep);
            r.append(head);
            r
        },
        None => String::from_str(s),
    }
}

/// Whether `c` is white space: a character with the Unicode property `White_Space`.
pub open spec fn is_white_space(c: char) -> bool {
    let code = c as u32;
    (0x09 <= code && code <= 0x0d) || code == 0x20 || code == 0x85 || code == 0xa0 || code == 0x1680
        || (0x2000 <= code && code <= 0x200a) || code == 0x2028 || code == 0x2029 || code == 0x202f
        || code == 0x205f || code == 0x3000
}

/// `s` without the white space at its end.
pub open spec fn trimmed_end(s: Seq<char>) -> Seq<char>
    decreases s.len(),
{
    if s.len() > 0 && is_white_space(s.last()) {
        trimmed_end(s.drop_last())
    } else {
        s
    }
}

/// The lines of `s`: the pieces between its line feeds, without the empty piece behind a last
/// line feed.
pub open spec fn lines_of(s: Seq<char>) -> Seq<Seq<char>>
    decreases s.len(),
{
    if s.len() == 0 {
        Seq::empty()
    } else if !(0 <= first_index(s, '\n') < s.len()) {
        seq![s]
    } else {
        seq![s.take(first_index(s, '\n'))] + lines_of(s.skip(first_index(s, '\n') + 1))
    }
}

/// A text without a line feed that is not empty is one line.
pub proof fn lemma_lines_of_line(line: Seq<char>)
    requires
        line.len() > 0,
        !line.contains('\n'),
    ensures
        lines_of(line) == seq![line],
{
    lemma_first_index(line, '\n');
    if first_index(line, '\n') < line.len() {
        assert(line.contains(line[first_index(line, '\n')]));
    }
}

/// A text that does not end with a line feed has one line more where a line feed and a line
/// follow it.
pub proof fn lemma_lines_of_appended(text: Seq<char>, line: Seq<char>)
    requires
        text.len() > 0,
        text.last() != '\n',
        line.len() > 0,
        !line.contains('\n'),
    ensures
        lines_of(text + seq!['\n'] + line) == lines_of(text).push(line),
    decreases text.len(),
{
    let s = text + seq!['\n'] + line;
    lemma_first_index(text, '\n');
    let k = first_index(text, '\n');
    if k < text.len() {
        assert(s[k] == text[k]);
        assert forall|j: int| 0 <= j < k implies s[j] != '\n' by {
            assert(s[j] == text[j]);
        }
        lemma_first_index_unique(s, '\n', k);
        let rest = text.skip(k + 1);
        assert(k < text.len() - 1);
        assert(rest.last() == text.last());
        assert(s.skip(k + 1) =~= rest + seq!['\n'] + line);
        assert(s.take(k) =~= text.take(k));
        lemma_lines_of_appended(rest, line);
        assert(lines_of(s) == seq![text.take(k)] + lines_of(rest + seq!['\n'] + line));
        assert(lines_of(text) == seq![text.take(k)] + lines_of(rest));
        assert(seq![text.take(k)] + lines_of(rest).push(line) =~= (seq![text.take(k)] + lines_of(
            rest,
        )).push(line));
    } else {
        assert(s[text.len() as int] == '\n');
        assert forall|j: int| 0 <= j < text.len() implies s[j] != '\n' by {
            assert(s[j] == text[j]);
        }
        lemma_first_index_unique(s, '\n', text.len() as int);
        assert(s.take(text.len() as int) =~= text);
        assert(s.skip(text.len() as int + 1) =~= line);
        lemma_lines_of_line(line);
        assert(lines_of(s) == seq![text] + lines_of(line));
        assert(lines_of(text) == seq![text]);
        assert(seq![text] + seq![line] =~= seq![text].push(line));
    }
}

/// The lines of `text`.
pub fn split_lines(text: &str) -> (r: Vec<String>)
    ensures
        views(r@) == lines_of(text@),
{
    let chars = chars_of(text);
    let mut r: Vec<String> = Vec::new();
    let mut start: usize = 0;
    assert(text@.skip(0) == text@);
    assert(views(r@) + lines_of(text@) == lines_of(text@));
    while start < chars.len()
        invariant
            chars@ == text@,
            start <= chars.len(),
            views(r@) + lines_of(text@.skip(start as int)) == lines_of(text@),
        decreases chars.len() - start,
    {
        let ghost rest = text@.skip(start as int);
        let mut end: usize = start;
        while end < chars.len() && chars[end] != '\n'
            invariant
                chars@ == text@,
                start <= end <= chars.len(),
                forall|k: int| start <= k < end ==> text@[k] != '\n',
            decreases chars.len() - end,
        {
            end += 1;
        }
        let line = String::from_str(text.substring_char(start, end));
        proof {
            assert forall|k: int| 0 <= k < end - start implies rest[k] != '\n' by {
                assert(rest[k] == text@[start + k]);
            }
            lemma_first_index_unique(rest, '\n', end - start);
            assert(line@ =~= rest.take(end - start));
            assert(views(r@.push(line)) =~= views(r@) + seq![line@]);
            if end < chars@.len() {
                assert(rest.skip(end - start + 1) == text@.skip(end + 1));
                assert((views(r@) + seq![line@]) + lines_of(text@.skip(end + 1)) == views(r@) + (
                seq![line@] + lines_of(text@.skip(end + 1))));
            } else {
                assert(line@ =~= rest);
                assert(text@.skip(chars@.len() as int).len() == 0);
                assert((views(r@) + seq![line@]) + Seq::<Seq<char>>::empty() == views(r@)
                    + seq![rest]);
            }
        }
        r.push(line);
        start = if end < chars.len() {
            end + 1
        } else {
            end
        };
    }
    assert(views(r@) + Seq::<Seq<char>>::empty() == views(r@));
    r
}

/// An optional string as an optional sequence of characters.
pub open spec fn option_view(s: Option<String>) -> Option<Seq<char>> {
    match s {
        Some(s) => Some(s@),
        None => None,
    }
}

/// A copy of the optional string.
pub fn clone_option(s: &Option<String>) -> (r: Option<String>)
    ensures
        r == *s,
{
    match s {
        Some(s) => Some(s.clone()),
        None => None,
    }
}

/// A copy of the strings.
pub fn clone_strings(v: &Vec<String>) -> (r: Vec<String>)
    ensures
        r@ == v@,
{
    let mut r: Vec<String> = Vec::new();
    let mut i: usize = 0;
    while i < v.len()
        invariant
            i <= v.len(),
            r@ == v@.take(i as int),
        decreases v.len() - i,
    {
        r.push(v[i].clone());
        assert(v@.take(i + 1) == v@.take(i as int).push(v@[i as int]));
        i += 1;
    }
    assert(v@.take(v@.len() as int) == v@);
    r
}

/// What is written as a decimal number is read as the same number.
pub proof fn lemma_decimal_round_trip(n: nat)
    ensures
        is_number(decimal(n)),
        decimal_value(decimal(n)) == n,
    decreases n,
{
    if n < 10 {
        let s = decimal(n);
        assert(s.drop_last() =~= Seq::<char>::empty());
        assert(decimal_value(s.drop_last()) == 0);
        assert(digit_value(s.last()) == n);
    } else {
        lemma_decimal_round_trip(n / 10);
        let head = decimal(n / 10);
        let s = decimal(n);
        assert(s.drop_last() =~= head);
        assert(digit_value(s.last()) == n % 10);
        assert forall|i: int| 0 <= i < s.len() implies is_digit(#[trigger] s[i]) by {
            if i < head.len() {
                assert(s[i] == head[i]);
            }
        }
    }
}

} // verus!

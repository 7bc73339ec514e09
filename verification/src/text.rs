use vstd::prelude::*;

use crate::triangle::User;

verus! {

/// The word shown for an optional verified flag.
pub open spec fn verified_word(value: Option<bool>) -> Seq<char> {
    match value {
        Some(true) => seq!['y', 'e', 's'],
        Some(false) => seq!['n', 'o'],
        None => unknown_word(),
    }
}

/// Text for an optional verified flag: "yes", "no" or "unknown".
pub fn verified_text(value: Option<bool>) -> (r: String)
    ensures
        r@ == verified_word(value),
{
    match value {
        Some(true) => {
            let r = String::from_str("yes");
            proof { reveal_strlit("yes"); }
            r
        },
        Some(false) => {
            let r = String::from_str("no");
            proof { reveal_strlit("no"); }
            r
        },
        None => {
            let r = String::from_str("unknown");
            proof { reveal_strlit("unknown"); }
            r
        },
    }
}

/// The characters of `s`, in order.
pub fn chars_of(s: &str) -> (r: Vec<char>)
    ensures
        r@ == s@,
{
    let mut r: Vec<char> = Vec::new();
    for c in it: s.chars()
        invariant
            r@ == it.seq().take(it.index() as int),
    {
        r.push(c);
    }
    r
}

/// Rust's `char::is_whitespace`: the Unicode `White_Space` property.
pub open spec fn is_space(c: char) -> bool {
    let u = c as u32;
    ||| 0x9 <= u <= 0xD
    ||| u == 0x20
    ||| u == 0x85
    ||| u == 0xA0
    ||| u == 0x1680
    ||| 0x2000 <= u <= 0x200A
    ||| u == 0x2028
    ||| u == 0x2029
    ||| u == 0x202F
    ||| u == 0x205F
    ||| u == 0x3000
}

/// Whether `c` is white space in the sense of [`is_space`].
pub fn is_space_char(c: char) -> (r: bool)
    ensures
        r == is_space(c),
{
    let u = c as u32;
    (0x9 <= u && u <= 0xD) || u == 0x20 || u == 0x85 || u == 0xA0 || u == 0x1680 || (0x2000 <= u
        && u <= 0x200A) || u == 0x2028 || u == 0x2029 || u == 0x202F || u == 0x205F || u == 0x3000
}

/// The words of `s` (its maximal runs of non-space characters) joined by
/// single spaces. `started` says a word has already been written, `pending`
/// that white space has been skipped since.
pub open spec fn squeeze(s: Seq<char>, started: bool, pending: bool) -> Seq<char>
    decreases s.len(),
{
    if s.len() == 0 {
        Seq::empty()
    } else if is_space(s[0]) {
        squeeze(s.drop_first(), started, started)
    } else {
        (if pending { seq![' '] } else { Seq::empty() }) + seq![s[0]] + squeeze(
            s.drop_first(),
            true,
            false,
        )
    }
}

/// `s` with its words joined by single spaces, as
/// `s.split_whitespace().collect::<Vec<_>>().join(" ")` gives it.
pub open spec fn clean(s: Seq<char>) -> Seq<char> {
    squeeze(s, false, false)
}

/// A string made of the given characters, in order.
///
/// Trusted: calls `String::from_iter` over the characters; std documents
/// that collecting characters into a `String` keeps them in order.
#[verifier::external_body]
pub(crate) fn string_from_chars(chars: &Vec<char>) -> (r: String)
    ensures
        r@ == chars@,
{
    chars.iter().collect()
}

proof fn lemma_squeeze_step(s: Seq<char>, i: int, started: bool, pending: bool)
    requires
        0 <= i < s.len(),
    ensures
        squeeze(s.skip(i), started, pending) == if is_space(s[i]) {
            squeeze(s.skip(i + 1), started, started)
        } else {
            (if pending { seq![' '] } else { Seq::<char>::empty() }) + seq![s[i]] + squeeze(
                s.skip(i + 1),
                true,
                false,
            )
        },
{
    assert(s.skip(i).drop_first() =~= s.skip(i + 1));
    assert(s.skip(i)[0] == s[i]);
}

/// `value` with its words joined by single spaces.
pub fn clean_text(value: &str) -> (r: String)
    ensures
        r@ == clean(value@),
{
    let chars = chars_of(value);
    let mut out: Vec<char> = Vec::new();
    let mut started = false;
    let mut pending = false;
    let mut i: usize = 0;
    proof {
        assert(value@.skip(0) =~= value@);
    }
    while i < chars.len()
        invariant
            chars@ == value@,
            i <= chars.len(),
            out@ + squeeze(value@.skip(i as int), started, pending) == clean(value@),
        decreases chars.len() - i,
    {
        let c = chars[i];
        proof {
            lemma_squeeze_step(value@, i as int, started, pending);
        }
        if is_space_char(c) {
            pending = started;
        } else {
            let ghost before = out@;
            if pending {
                out.push(' ');
            }
            out.push(c);
            proof {
                let pre = if pending { seq![' '] } else { Seq::<char>::empty() };
                assert(out@ =~= before + pre + seq![c]);
                assert(before + (pre + seq![c] + squeeze(value@.skip(i + 1), true, false)) =~= out@
                    + squeeze(value@.skip(i + 1), true, false));
            }
            started = true;
            pending = false;
        }
        i = i + 1;
    }
    proof {
        assert(value@.skip(i as int).len() == 0);
        assert(out@ =~= clean(value@));
    }
    string_from_chars(&out)
}

/// `s` holds a character that is not white space.
pub open spec fn has_word(s: Seq<char>) -> bool {
    exists|i: int| 0 <= i < s.len() && !is_space(#[trigger] s[i])
}

/// The text shown for an optional detail: its words joined by single spaces,
/// or "unknown" when it is absent or blank.
pub open spec fn option_words(value: Option<String>) -> Seq<char> {
    match value {
        Some(v) => if has_word(v@) { clean(v@) } else { unknown_word() },
        None => unknown_word(),
    }
}

pub open spec fn unknown_word() -> Seq<char> {
    seq!['u', 'n', 'k', 'n', 'o', 'w', 'n']
}

/// Whether `s` holds a character that is not white space.
fn has_word_exec(s: &str) -> (r: bool)
    ensures
        r == has_word(s@),
{
    let chars = chars_of(s);
    let mut i: usize = 0;
    while i < chars.len()
        invariant
            chars@ == s@,
            i <= chars.len(),
            forall|j: int| 0 <= j < i ==> is_space(#[trigger] s@[j]),
        decreases chars.len() - i,
    {
        if !is_space_char(chars[i]) {
            return true;
        }
        i = i + 1;
    }
    false
}

/// The text for an optional detail: its words joined by single spaces, or
/// "unknown" when it is absent or blank.
pub fn option_text(value: &Option<String>) -> (r: String)
    ensures
        r@ == option_words(*value),
{
    match value {
        Some(v) => {
            if has_word_exec(v.as_str()) {
                return clean_text(v.as_str());
            }
        },
        None => {},
    }
    let r = String::from_str("unknown");
    proof {
        reveal_strlit("unknown");
    }
    r
}

/// The decimal digit for `d` below ten.
pub open spec fn digit(d: nat) -> char {
    if d == 0 { '0' }
    else if d == 1 { '1' }
    else if d == 2 { '2' }
    else if d == 3 { '3' }
    else if d == 4 { '4' }
    else if d == 5 { '5' }
    else if d == 6 { '6' }
    else if d == 7 { '7' }
    else if d == 8 { '8' }
    else { '9' }
}

/// The decimal notation of `n`, without leading zeros.
pub open spec fn decimal(n: nat) -> Seq<char>
    decreases n,
{
    if n < 10 {
        seq![digit(n)]
    } else {
        decimal(n / 10).push(digit(n % 10))
    }
}

/// The decimal notation of `v`, with a minus sign when it is negative.
pub open spec fn signed_decimal(v: int) -> Seq<char> {
    if v < 0 {
        seq!['-'] + decimal((-v) as nat)
    } else {
        decimal(v as nat)
    }
}

fn digit_char(d: u64) -> (c: char)
    requires
        d < 10,
    ensures
        c == digit(d as nat),
{
    if d == 0 { '0' }
    else if d == 1 { '1' }
    else if d == 2 { '2' }
    else if d == 3 { '3' }
    else if d == 4 { '4' }
    else if d == 5 { '5' }
    else if d == 6 { '6' }
    else if d == 7 { '7' }
    else if d == 8 { '8' }
    else { '9' }
}

fn decimal_chars(n: u64) -> (r: Vec<char>)
    ensures
        r@ == decimal(n as nat),
{
    let mut m = n;
    let mut suffix: Vec<char> = Vec::new();
    while m >= 10
        invariant
            decimal(n as nat) == decimal(m as nat) + suffix@,
        decreases m,
    {
        let d = digit_char(m % 10);
        let ghost old_suffix = suffix@;
        suffix.insert(0, d);
        proof {
            assert(suffix@ =~= seq![d] + old_suffix);
            assert(decimal(m as nat) == decimal((m / 10) as nat).push(digit((m % 10) as nat)));
            assert(decimal((m / 10) as nat).push(d) + old_suffix =~= decimal((m / 10) as nat)
                + suffix@);
        }
        m = m / 10;
    }
    let ghost old_suffix = suffix@;
    suffix.insert(0, digit_char(m));
    proof {
        assert(suffix@ =~= decimal(m as nat) + old_suffix);
    }
    suffix
}

/// The decimal notation of `n`.
pub fn decimal_text(n: u64) -> (r: String)
    ensures
        r@ == decimal(n as nat),
{
    string_from_chars(&decimal_chars(n))
}

/// The decimal notation of `v`, with a minus sign when it is negative.
pub fn signed_text(v: i64) -> (r: String)
    ensures
        r@ == signed_decimal(v as int),
{
    if v < 0 {
        let m = (0i128 - (v as i128)) as u64;
        let mut chars: Vec<char> = Vec::new();
        chars.push('-');
        let mut digits = decimal_chars(m);
        chars.append(&mut digits);
        proof {
            assert(chars@ =~= seq!['-'] + decimal((-v) as nat));
        }
        string_from_chars(&chars)
    } else {
        decimal_text(v as u64)
    }
}

/// The title of a page of rows: which rows are on screen out of how many,
/// or that there are none.
pub open spec fn page_words(title: Seq<char>, offset: int, total: int) -> Seq<char> {
    if total == 0 {
        title + " - empty"@
    } else {
        title + " - rows "@ + decimal((offset + 1) as nat) + "-"@ + decimal(
            (if offset + 10 <= total { offset + 10 } else { total }) as nat,
        ) + " of "@ + decimal(total as nat)
    }
}

/// The title of a page of up to ten rows starting at row `offset` (counted
/// from zero) out of `total`.
pub fn page_title(title: &str, offset: usize, total: usize) -> (r: String)
    requires
        total > 0 ==> offset + 10 <= usize::MAX,
    ensures
        r@ == page_words(title@, offset as int, total as int),
{
    let mut r = String::from_str(title);
    if total == 0 {
        r.append(" - empty");
        return r;
    }
    let last = if offset + 10 <= total { offset + 10 } else { total };
    r.append(" - rows ");
    r.append(decimal_text((offset + 1) as u64).as_str());
    r.append("-");
    r.append(decimal_text(last as u64).as_str());
    r.append(" of ");
    r.append(decimal_text(total as u64).as_str());
    r
}

/// A page title says "empty" exactly when there are no rows; with rows, it
/// names the first row on screen counted from one, the last row on screen
/// (ten rows on, or the last row), and how many rows there are.
pub proof fn law_page_title(title: Seq<char>, offset: int, total: int)
    requires
        0 <= offset,
        0 <= total,
    ensures
        page_words(title, offset, total) == title + " - empty"@ <==> total == 0,
        total > 0 ==> page_words(title, offset, total) == title + " - rows "@ + decimal(
            (offset + 1) as nat,
        ) + "-"@ + decimal((if offset + 10 <= total { offset + 10 } else { total }) as nat)
            + " of "@ + decimal(total as nat),
{
    if total > 0 {
        reveal_strlit(" - empty");
        reveal_strlit(" - rows ");
        let w = page_words(title, offset, total);
        let e = title + " - empty"@;
        let i = title.len() as int + 3;
        let head = title + " - rows "@;
        assert(head[i] == 'r');
        assert(e[i] == 'e');
        assert(w =~= head + (decimal((offset + 1) as nat) + "-"@ + decimal(
            (if offset + 10 <= total { offset + 10 } else { total }) as nat,
        ) + " of "@ + decimal(total as nat)));
        assert(w[i] == 'r');
        assert(w != e);
    }
}

/// How a user is introduced at a corner: label, screen name, display name.
pub open spec fn user_words(label: Seq<char>, screen_name: Seq<char>, name: Seq<char>) -> Seq<char> {
    label + ": @"@ + screen_name + " ("@ + name + ")"@
}

/// "`label`: @screen_name (name)" for a user at a corner.
pub fn format_user(label: &str, user: &User) -> (r: String)
    ensures
        r@ == user_words(label@, user.screen_name@, user.name@),
{
    let mut r = String::from_str(label);
    r.append(": @");
    r.append(user.screen_name.as_str());
    r.append(" (");
    r.append(user.name.as_str());
    r.append(")");
    r
}

/// The magnitude of `v`.
pub open spec fn abs(v: int) -> int {
    if v < 0 { -v } else { v }
}

/// The scale and unit letter a count is written with: millions from a
/// million up, thousands from a thousand up, none below.
pub open spec fn count_scale_of(v: int) -> Option<(i64, char)> {
    if abs(v) >= 1_000_000 {
        Some((1_000_000, 'M'))
    } else if abs(v) >= 1_000 {
        Some((1_000, 'K'))
    } else {
        None
    }
}

/// The scale and unit letter a count is written with.
pub fn count_scale(v: i64) -> (r: Option<(i64, char)>)
    requires
        v != i64::MIN,
    ensures
        r == count_scale_of(v as int),
{
    let a = if v < 0 { -v } else { v };
    if a >= 1_000_000 {
        Some((1_000_000, 'M'))
    } else if a >= 1_000 {
        Some((1_000, 'K'))
    } else {
        None
    }
}

/// How an optional count is to be written.
pub enum CountLabel {
    /// The count is not known.
    Unknown,
    /// The count is written out in full.
    Plain(String),
    /// The count is written divided by `scale`, with one decimal place and
    /// the letter `unit` behind it.
    Scaled { value: i64, scale: i64, unit: char },
}

/// How an optional count is written: "unknown" when absent, in millions or
/// thousands when large, in full otherwise.
pub open spec fn count_label_of(value: Option<i64>, r: CountLabel) -> bool {
    match value {
        None => r is Unknown,
        Some(v) => match count_scale_of(v as int) {
            Some((scale, unit)) => r == CountLabel::Scaled { value: v, scale, unit },
            None => r matches CountLabel::Plain(s) && s@ == signed_decimal(v as int),
        },
    }
}

/// How an optional count is to be written.
pub fn count_label(value: Option<i64>) -> (r: CountLabel)
    requires
        value != Some(i64::MIN),
    ensures
        count_label_of(value, r),
{
    match value {
        None => CountLabel::Unknown,
        Some(v) => match count_scale(v) {
            Some((scale, unit)) => CountLabel::Scaled { value: v, scale, unit },
            None => CountLabel::Plain(signed_text(v)),
        },
    }
}

/// The name shown for a user: the display name with its words joined by
/// single spaces, or "unknown" when the display name is empty.
pub open spec fn display_words(name: Seq<char>) -> Seq<char> {
    if name.len() == 0 { clean(unknown_word()) } else { clean(name) }
}

/// The name shown for a user.
pub fn display_name(user: &User) -> (r: String)
    ensures
        r@ == display_words(user.name@),
{
    if user.name.as_str().unicode_len() == 0 {
        proof {
            reveal_strlit("unknown");
            assert("unknown"@ =~= unknown_word());
        }
        clean_text("unknown")
    } else {
        clean_text(user.name.as_str())
    }
}

/// The label next to a vertex: "`label` @screen_name".
pub fn vertex_label(label: &str, user: &User) -> (r: String)
    ensures
        r@ == label@ + " @"@ + user.screen_name@,
{
    let mut r = String::from_str(label);
    r.append(" @");
    r.append(user.screen_name.as_str());
    r
}

/// Every white space character of `t` is a plain space standing alone
/// between two other characters, except that a space may open `t` when
/// `lead` allows it, and `t` does not end in white space.
pub open spec fn spaced(t: Seq<char>, lead: bool) -> bool {
    forall|i: int|
        0 <= i < t.len() && is_space(#[trigger] t[i]) ==> {
            &&& t[i] == ' '
            &&& i + 1 < t.len()
            &&& !is_space(t[i + 1])
            &&& (i > 0 ==> !is_space(t[i - 1]))
            &&& (i == 0 ==> lead)
        }
}

/// Text in which words are separated by single plain spaces, with no white
/// space at either end.
pub open spec fn is_clean(t: Seq<char>) -> bool {
    spaced(t, false)
}

proof fn lemma_squeeze_spaced(s: Seq<char>, started: bool, pending: bool)
    requires
        pending ==> started,
    ensures
        spaced(squeeze(s, started, pending), started),
    decreases s.len(),
{
    if s.len() > 0 {
        if is_space(s[0]) {
            lemma_squeeze_spaced(s.drop_first(), started, started);
        } else {
            lemma_squeeze_spaced(s.drop_first(), true, false);
            let tail = squeeze(s.drop_first(), true, false);
            let head = (if pending { seq![' '] } else { Seq::<char>::empty() }) + seq![s[0]];
            let r = head + tail;
            assert(r == squeeze(s, started, pending));
            let h = head.len() as int;
            assert forall|i: int|
                0 <= i < r.len() && is_space(#[trigger] r[i]) implies {
                &&& r[i] == ' '
                &&& i + 1 < r.len()
                &&& !is_space(r[i + 1])
                &&& (i > 0 ==> !is_space(r[i - 1]))
                &&& (i == 0 ==> started)
            } by {
                if i >= h {
                    assert(r[i] == tail[i - h]);
                    assert(is_space(tail[i - h]));
                    if i + 1 < r.len() {
                        assert(r[i + 1] == tail[i - h + 1]);
                    }
                    if i - h > 0 {
                        assert(r[i - 1] == tail[i - h - 1]);
                    } else {
                        assert(r[i - 1] == s[0]);
                    }
                } else if i == h - 1 {
                    assert(r[i] == s[0]);
                } else {
                    assert(pending && i == 0);
                    assert(r[1] == s[0]);
                }
            }
        }
    }
}

/// The words of any text joined by single spaces form clean text.
pub proof fn law_clean_is_clean(s: Seq<char>)
    ensures
        is_clean(clean(s)),
{
    lemma_squeeze_spaced(s, false, false);
}

proof fn lemma_squeeze_fixed(t: Seq<char>)
    requires
        spaced(t, true),
    ensures
        squeeze(t, true, false) == t,
    decreases t.len(),
{
    if t.len() > 0 {
        let rest = t.drop_first();
        assert forall|i: int|
            0 <= i < rest.len() && is_space(#[trigger] rest[i]) implies {
            &&& rest[i] == ' '
            &&& i + 1 < rest.len()
            &&& !is_space(rest[i + 1])
            &&& (i > 0 ==> !is_space(rest[i - 1]))
            &&& (i == 0 ==> true)
        } by {
            assert(rest[i] == t[i + 1]);
            assert(is_space(t[i + 1]));
        }
        if is_space(t[0]) {
            assert(!is_space(t[1]));
            assert(rest[0] == t[1]);
            let rest2 = rest.drop_first();
            assert forall|i: int|
                0 <= i < rest2.len() && is_space(#[trigger] rest2[i]) implies {
                &&& rest2[i] == ' '
                &&& i + 1 < rest2.len()
                &&& !is_space(rest2[i + 1])
                &&& (i > 0 ==> !is_space(rest2[i - 1]))
                &&& (i == 0 ==> true)
            } by {
                assert(rest2[i] == t[i + 2]);
                assert(is_space(t[i + 2]));
            }
            lemma_squeeze_fixed(rest2);
            assert(squeeze(t, true, false) == squeeze(rest, true, true));
            assert(squeeze(rest, true, true) == seq![' '] + seq![rest[0]] + squeeze(rest2, true, false));
            assert(t == seq![' '] + seq![rest[0]] + rest2) by {
                assert(t =~= seq![t[0]] + seq![t[1]] + t.skip(2));
                assert(rest2 =~= t.skip(2));
            }
        } else {
            lemma_squeeze_fixed(rest);
            assert(t =~= seq![t[0]] + rest);
        }
    }
}

/// Joining the words of clean text changes nothing: cleaning twice is
/// cleaning once.
pub proof fn law_clean_idempotent(s: Seq<char>)
    ensures
        clean(clean(s)) == clean(s),
{
    law_clean_is_clean(s);
    lemma_clean_fixed(clean(s));
}

proof fn lemma_clean_fixed(t: Seq<char>)
    requires
        is_clean(t),
    ensures
        clean(t) == t,
{
    if t.len() > 0 {
        assert(!is_space(t[0]));
        let rest = t.drop_first();
        assert forall|i: int|
            0 <= i < rest.len() && is_space(#[trigger] rest[i]) implies {
            &&& rest[i] == ' '
            &&& i + 1 < rest.len()
            &&& !is_space(rest[i + 1])
            &&& (i > 0 ==> !is_space(rest[i - 1]))
            &&& (i == 0 ==> true)
        } by {
            assert(rest[i] == t[i + 1]);
            assert(is_space(t[i + 1]));
        }
        lemma_squeeze_fixed(rest);
        assert(t =~= seq![t[0]] + rest);
    }
}

proof fn lemma_squeeze_empty(s: Seq<char>, started: bool, pending: bool)
    ensures
        squeeze(s, started, pending).len() == 0 <==> !has_word(s),
    decreases s.len(),
{
    if s.len() > 0 {
        lemma_squeeze_empty(s.drop_first(), if is_space(s[0]) { started } else { true }, if is_space(s[0]) { started } else { false });
        if has_word(s.drop_first()) {
            let i = choose|i: int| 0 <= i < s.drop_first().len() && !is_space(#[trigger] s.drop_first()[i]);
            assert(!is_space(s[i + 1]));
        }
        if has_word(s) && is_space(s[0]) {
            let i = choose|i: int| 0 <= i < s.len() && !is_space(#[trigger] s[i]);
            assert(s.drop_first()[i - 1] == s[i]);
        }
        if !is_space(s[0]) {
            assert(has_word(s));
        }
    }
}

/// Cleaning leaves nothing exactly when the text holds no word.
pub proof fn law_clean_empty(s: Seq<char>)
    ensures
        clean(s).len() == 0 <==> !has_word(s),
{
    lemma_squeeze_empty(s, false, false);
}

/// `cur` as a list of words: itself, unless it is empty.
pub open spec fn word_list(cur: Seq<char>) -> Seq<Seq<char>> {
    if cur.len() > 0 { seq![cur] } else { Seq::empty() }
}

/// The words of `s` (its maximal runs of characters that are not white
/// space, in order), the first of them continuing the word `cur` begun
/// before `s`.
pub open spec fn words_from(s: Seq<char>, cur: Seq<char>) -> Seq<Seq<char>>
    decreases s.len(),
{
    if s.len() == 0 {
        word_list(cur)
    } else if is_space(s[0]) {
        word_list(cur) + words_from(s.drop_first(), Seq::empty())
    } else {
        words_from(s.drop_first(), cur.push(s[0]))
    }
}

/// The words of `s`, as `s.split_whitespace()` yields them.
pub open spec fn words(s: Seq<char>) -> Seq<Seq<char>> {
    words_from(s, Seq::empty())
}

proof fn lemma_words_at_break(x: Seq<char>, cur: Seq<char>)
    requires
        x.len() == 0 || is_space(x[0]),
    ensures
        words_from(x, cur) == word_list(cur) + words_from(x, Seq::empty()),
{
    if x.len() == 0 {
        assert(word_list(cur) + Seq::<Seq<char>>::empty() =~= word_list(cur));
    } else {
        let w = words_from(x.drop_first(), Seq::empty());
        assert(Seq::<Seq<char>>::empty() + w =~= w);
    }
}

proof fn lemma_squeeze_pending_opens(x: Seq<char>)
    ensures
        squeeze(x, true, true).len() == 0 || squeeze(x, true, true)[0] == ' ',
    decreases x.len(),
{
    if x.len() > 0 && is_space(x[0]) {
        lemma_squeeze_pending_opens(x.drop_first());
    }
}

proof fn lemma_squeeze_words(s: Seq<char>, cur: Seq<char>, started: bool, pending: bool)
    requires
        pending ==> started,
        cur.len() > 0 ==> started && !pending,
    ensures
        words_from(squeeze(s, started, pending), cur) == words_from(s, cur),
    decreases s.len(),
{
    if s.len() > 0 {
        let rest = s.drop_first();
        if is_space(s[0]) {
            lemma_squeeze_words(rest, Seq::empty(), started, started);
            if cur.len() > 0 {
                assert(is_space(' '));
                lemma_squeeze_pending_opens(rest);
                lemma_words_at_break(squeeze(rest, true, true), cur);
            } else {
                let w = words_from(rest, Seq::empty());
                assert(Seq::<Seq<char>>::empty() + w =~= w);
                assert(cur =~= Seq::<char>::empty());
            }
        } else {
            let tail = squeeze(rest, true, false);
            let c = s[0];
            lemma_squeeze_words(rest, cur.push(c), true, false);
            let body = seq![c] + tail;
            assert(body[0] == c);
            assert(body.drop_first() =~= tail);
            if pending {
                let sq = seq![' '] + body;
                assert(sq == squeeze(s, started, pending));
                assert(sq[0] == ' ');
                assert(sq.drop_first() =~= body);
                assert(is_space(' '));
                assert(words_from(sq, cur) == words_from(body, Seq::empty())) by {
                    let w = words_from(body, Seq::empty());
                    assert(Seq::<Seq<char>>::empty() + w =~= w);
                }
                assert(Seq::<char>::empty().push(c) =~= cur.push(c));
            } else {
                assert(Seq::<char>::empty() + body =~= body);
                assert(body == squeeze(s, started, pending));
            }
        }
    }
}

/// Cleaning text keeps its words: the same words, in the same order.
pub proof fn law_clean_keeps_words(s: Seq<char>)
    ensures
        words(clean(s)) == words(s),
{
    lemma_squeeze_words(s, Seq::empty(), false, false);
}

/// One labelled detail of a user: the label and its value with its words
/// joined by single spaces.
pub open spec fn detail_is(d: (&'static str, String), label: Seq<char>, value: Seq<char>) -> bool {
    d.0@ == label && d.1@ == clean(value)
}

/// The text of an optional identifier: the identifier, or "unknown".
pub open spec fn id_words(value: Option<String>) -> Seq<char> {
    match value {
        Some(s) => s@,
        None => unknown_word(),
    }
}

fn detail(label: &'static str, value: &str) -> (r: (&'static str, String))
    ensures
        detail_is(r, label@, value@),
{
    (label, clean_text(value))
}

/// The labelled details shown for a user under its name: bio, verified, id,
/// followers and friends, tweets, location, language and time zone, and the
/// date it joined. `followers`, `friends` and `statuses` are the user's
/// counts as already written out.
pub fn user_details(user: &User, followers: &str, friends: &str, statuses: &str) -> (r: Vec<(&'static str, String)>)
    ensures
        r.len() == 8,
        detail_is(r@[0], "bio"@, option_words(user.description)),
        detail_is(r@[1], "verified"@, verified_word(user.verified)),
        detail_is(r@[2], "id"@, id_words(user.id_str)),
        detail_is(r@[3], "social"@, followers@ + " followers / "@ + friends@ + " friends"@),
        detail_is(r@[4], "tweets"@, statuses@),
        detail_is(r@[5], "location"@, option_words(user.location)),
        detail_is(r@[6], "locale"@, option_words(user.lang) + " / "@ + option_words(user.time_zone)),
        detail_is(r@[7], "joined"@, option_words(user.created_at)),
{
    let mut r: Vec<(&'static str, String)> = Vec::new();
    r.push(detail("bio", option_text(&user.description).as_str()));
    r.push(detail("verified", verified_text(user.verified).as_str()));
    let id = match &user.id_str {
        Some(s) => s.clone(),
        None => {
            proof {
                reveal_strlit("unknown");
                assert("unknown"@ =~= unknown_word());
            }
            String::from_str("unknown")
        },
    };
    assert(id@ == id_words(user.id_str));
    r.push(detail("id", id.as_str()));
    let mut social = String::from_str(followers);
    social.append(" followers / ");
    social.append(friends);
    social.append(" friends");
    r.push(detail("social", social.as_str()));
    r.push(detail("tweets", statuses));
    r.push(detail("location", option_text(&user.location).as_str()));
    let mut locale = option_text(&user.lang);
    locale.append(" / ");
    locale.append(option_text(&user.time_zone).as_str());
    r.push(detail("locale", locale.as_str()));
    r.push(detail("joined", option_text(&user.created_at).as_str()));
    r
}

/// The text after a vertex user's screen name in the legend: shown name,
/// follower count (already written out) and verified flag.
pub fn legend_text(user: &User, followers: &str) -> (r: String)
    ensures
        r@ == " | "@ + display_words(user.name@) + " | "@ + followers@ + " followers | verified: "@
            + verified_word(user.verified),
{
    let mut r = String::from_str(" | ");
    r.append(display_name(user).as_str());
    r.append(" | ");
    r.append(followers);
    r.append(" followers | verified: ");
    r.append(verified_text(user.verified).as_str());
    r
}

} // verus!

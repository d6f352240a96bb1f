//! Daemon settings: hotkey strings such as `Cmd+Shift+A`, the save and
//! notification options, and how configured values override the defaults.
//! Reading the file and decoding its TOML happen at the application's edge;
//! the decoded values arrive here as `RawConfig`.

use vstd::prelude::*;

use crate::strings::{ascii_lower, ascii_upper, chars_of, push_char, string_from_chars, to_ascii_lowercase, to_ascii_uppercase};

verus! {

/// Unicode White_Space characters, as `char::is_whitespace` and `str::trim`
/// use them.
pub open spec fn is_ws(c: char) -> bool {
    let v = c as u32;
    (0x09 <= v && v <= 0x0d) || v == 0x20 || v == 0x85 || v == 0xa0 || v == 0x1680 || (0x2000 <= v
        && v <= 0x200a) || v == 0x2028 || v == 0x2029 || v == 0x202f || v == 0x205f || v == 0x3000
}

fn is_whitespace(c: char) -> (b: bool)
    ensures
        b == is_ws(c),
{
    let v = c as u32;
    (0x09 <= v && v <= 0x0d) || v == 0x20 || v == 0x85 || v == 0xa0 || v == 0x1680 || (0x2000 <= v
        && v <= 0x200a) || v == 0x2028 || v == 0x2029 || v == 0x202f || v == 0x205f || v == 0x3000
}

/// Number of leading whitespace characters of `s`.
pub open spec fn lead_ws(s: Seq<char>) -> nat
    decreases s.len(),
{
    if s.len() > 0 && is_ws(s[0]) {
        1 + lead_ws(s.drop_first())
    } else {
        0
    }
}

/// Number of trailing whitespace characters of `s`.
pub open spec fn trail_ws(s: Seq<char>) -> nat
    decreases s.len(),
{
    if s.len() > 0 && is_ws(s.last()) {
        1 + trail_ws(s.drop_last())
    } else {
        0
    }
}

/// `s` without leading and trailing whitespace.
pub open spec fn trim(s: Seq<char>) -> Seq<char> {
    let t = s.skip(lead_ws(s) as int);
    t.take(t.len() - trail_ws(t))
}

proof fn lemma_lead_ws(s: Seq<char>, i: int)
    requires
        0 <= i <= s.len(),
        forall|k: int| 0 <= k < i ==> is_ws(#[trigger] s[k]),
        i == s.len() || !is_ws(s[i]),
    ensures
        lead_ws(s) == i,
    decreases i,
{
    if i > 0 {
        assert forall|k: int| 0 <= k < i - 1 implies is_ws(#[trigger] s.drop_first()[k]) by {
            assert(s.drop_first()[k] == s[k + 1]);
        }
        lemma_lead_ws(s.drop_first(), i - 1);
    }
}

proof fn lemma_trail_ws(s: Seq<char>, j: int)
    requires
        0 <= j <= s.len(),
        forall|k: int| j <= k < s.len() ==> is_ws(#[trigger] s[k]),
        j == 0 || !is_ws(s[j - 1]),
    ensures
        trail_ws(s) == s.len() - j,
    decreases s.len() - j,
{
    if j < s.len() {
        assert forall|k: int| j <= k < s.len() - 1 implies is_ws(#[trigger] s.drop_last()[k]) by {
            assert(s.drop_last()[k] == s[k]);
        }
        lemma_trail_ws(s.drop_last(), j);
    }
}

/// The characters of `s` from `from` to `to` with surrounding whitespace
/// removed, as a (start, end) range.
fn trim_range(s: &Vec<char>, from: usize, to: usize) -> (r: (usize, usize))
    requires
        from <= to <= s@.len(),
    ensures
        from <= r.0 <= r.1 <= to,
        s@.subrange(r.0 as int, r.1 as int) == trim(s@.subrange(from as int, to as int)),
{
    let ghost sub = s@.subrange(from as int, to as int);
    let mut i = from;
    while i < to && is_whitespace(s[i])
        invariant
            from <= i <= to <= s@.len(),
            sub == s@.subrange(from as int, to as int),
            forall|k: int| 0 <= k < i - from ==> is_ws(#[trigger] sub[k]),
        decreases to - i,
    {
        i = i + 1;
    }
    proof {
        lemma_lead_ws(sub, i - from);
    }
    let ghost t = sub.skip(i - from);
    assert(t =~= s@.subrange(i as int, to as int));
    let mut j = to;
    while j > i && is_whitespace(s[j - 1])
        invariant
            from <= i <= j <= to <= s@.len(),
            t == s@.subrange(i as int, to as int),
            forall|k: int| j - i <= k < t.len() ==> is_ws(#[trigger] t[k]),
        decreases j - i,
    {
        j = j - 1;
    }
    proof {
        lemma_trail_ws(t, j - i);
        assert(t.take(t.len() - trail_ws(t)) =~= s@.subrange(i as int, j as int));
    }
    (i, j)
}

/// The pieces of `s` between `+` signs (as `str::split('+')` gives them).
pub open spec fn split_plus(s: Seq<char>) -> Seq<Seq<char>>
    decreases s.len(),
{
    if s.len() == 0 {
        seq![Seq::empty()]
    } else {
        let rest = split_plus(s.drop_first());
        if s[0] == '+' {
            seq![Seq::empty()] + rest
        } else {
            seq![seq![s[0]] + rest[0]] + rest.drop_first()
        }
    }
}

proof fn lemma_split_plus_nonempty(s: Seq<char>)
    ensures
        split_plus(s).len() >= 1,
    decreases s.len(),
{
    if s.len() > 0 {
        lemma_split_plus_nonempty(s.drop_first());
    }
}

/// Splitting `s` once its first `k` characters, none of them `+`, are
/// moved to the front of the first piece.
proof fn lemma_split_prefix(s: Seq<char>, k: int)
    requires
        0 <= k <= s.len(),
        forall|i: int| 0 <= i < k ==> #[trigger] s[i] != '+',
    ensures
        split_plus(s.skip(k)).len() >= 1,
        split_plus(s) == seq![s.take(k) + split_plus(s.skip(k))[0]] + split_plus(s.skip(k)).drop_first(),
    decreases k,
{
    lemma_split_plus_nonempty(s.skip(k));
    if k == 0 {
        assert(s.skip(0) =~= s);
        assert(s.take(0) + split_plus(s)[0] =~= split_plus(s)[0]);
        assert(seq![split_plus(s)[0]] + split_plus(s).drop_first() =~= split_plus(s));
    } else {
        let t = s.drop_first();
        assert forall|i: int| 0 <= i < k - 1 implies #[trigger] t[i] != '+' by {
            assert(t[i] == s[i + 1]);
        }
        lemma_split_prefix(t, k - 1);
        assert(t.skip(k - 1) =~= s.skip(k));
        assert(seq![s[0]] + t.take(k - 1) =~= s.take(k));
        lemma_split_plus_nonempty(t);
        let rest = split_plus(t);
        assert(split_plus(s) == seq![seq![s[0]] + rest[0]] + rest.drop_first());
        assert(rest[0] == t.take(k - 1) + split_plus(t.skip(k - 1))[0]);
        assert(rest.drop_first() =~= split_plus(t.skip(k - 1)).drop_first());
        assert(seq![s[0]] + (t.take(k - 1) + split_plus(s.skip(k))[0]) =~= s.take(k) + split_plus(s.skip(k))[0]);
    }
}

/// Splitting at the first `+`, found at `k`, of a sequence with no `+`
/// before it.
proof fn lemma_split_at_plus(rest: Seq<char>, k: int)
    requires
        0 <= k < rest.len(),
        rest[k] == '+',
        forall|i: int| 0 <= i < k ==> #[trigger] rest[i] != '+',
    ensures
        split_plus(rest) == seq![rest.take(k)] + split_plus(rest.skip(k + 1)),
{
    lemma_split_prefix(rest, k);
    let after = rest.skip(k);
    assert(after[0] == '+');
    assert(after.drop_first() =~= rest.skip(k + 1));
    assert(split_plus(after) == seq![Seq::<char>::empty()] + split_plus(after.drop_first()));
    assert(rest.take(k) + Seq::<char>::empty() =~= rest.take(k));
    assert((seq![Seq::<char>::empty()] + split_plus(rest.skip(k + 1))).drop_first() =~= split_plus(rest.skip(k + 1)));
}

/// A sequence without `+` is a single piece.
proof fn lemma_split_no_plus(rest: Seq<char>)
    requires
        forall|i: int| 0 <= i < rest.len() ==> #[trigger] rest[i] != '+',
    ensures
        split_plus(rest) == seq![rest],
{
    lemma_split_prefix(rest, rest.len() as int);
    assert(rest.skip(rest.len() as int) =~= Seq::<char>::empty());
    assert(rest.take(rest.len() as int) =~= rest);
    assert(split_plus(Seq::<char>::empty()) == seq![Seq::<char>::empty()]);
    assert(rest + Seq::<char>::empty() =~= rest);
    assert(seq![rest] + seq![Seq::<char>::empty()].drop_first() =~= seq![rest]);
}

/// The ranges of `s[from..to]` between `+` signs, each trimmed.
fn split_trimmed(s: &Vec<char>, from: usize, to: usize) -> (parts: Vec<(usize, usize)>)
    requires
        from <= to <= s@.len(),
    ensures
        parts@.len() == split_plus(s@.subrange(from as int, to as int)).len(),
        forall|i: int|
            #![trigger parts@[i]]
            0 <= i < parts@.len() ==> from <= parts@[i].0 <= parts@[i].1 <= to && s@.subrange(
                parts@[i].0 as int,
                parts@[i].1 as int,
            ) == trim(split_plus(s@.subrange(from as int, to as int))[i]),
{
    let ghost whole = s@.subrange(from as int, to as int);
    let ghost mut pieces: Seq<Seq<char>> = Seq::empty();
    let mut parts: Vec<(usize, usize)> = Vec::new();
    let mut start = from;
    let mut i = from;
    assert(pieces + split_plus(s@.subrange(start as int, to as int)) =~= split_plus(whole));
    while i < to
        invariant
            from <= start <= i <= to <= s@.len(),
            whole == s@.subrange(from as int, to as int),
            forall|k: int| start <= k < i ==> #[trigger] s@[k] != '+',
            split_plus(whole) == pieces + split_plus(s@.subrange(start as int, to as int)),
            parts@.len() == pieces.len(),
            forall|k: int|
                #![trigger parts@[k]]
                0 <= k < parts@.len() ==> from <= parts@[k].0 <= parts@[k].1 <= to && s@.subrange(
                    parts@[k].0 as int,
                    parts@[k].1 as int,
                ) == trim(pieces[k]),
        decreases to - i,
    {
        if s[i] == '+' {
            let ghost rest = s@.subrange(start as int, to as int);
            proof {
                let k = (i - start) as int;
                assert forall|j: int| 0 <= j < k implies #[trigger] rest[j] != '+' by {
                    assert(rest[j] == s@[start + j]);
                }
                lemma_split_at_plus(rest, k);
                assert(rest.take(k) =~= s@.subrange(start as int, i as int));
                assert(rest.skip(k + 1) =~= s@.subrange(i + 1, to as int));
            }
            let r = trim_range(s, start, i);
            parts.push(r);
            proof {
                let piece = s@.subrange(start as int, i as int);
                assert(split_plus(whole) == pieces.push(piece) + split_plus(s@.subrange(i + 1, to as int))) by {
                    assert(pieces + (seq![piece] + split_plus(s@.subrange(i + 1, to as int))) =~= pieces.push(piece)
                        + split_plus(s@.subrange(i + 1, to as int)));
                }
                pieces = pieces.push(piece);
            }
            start = i + 1;
        }
        i = i + 1;
    }
    let r = trim_range(s, start, to);
    proof {
        let rest = s@.subrange(start as int, to as int);
        assert forall|j: int| 0 <= j < rest.len() implies #[trigger] rest[j] != '+' by {
            assert(rest[j] == s@[start + j]);
        }
        lemma_split_no_plus(rest);
        assert(split_plus(whole) =~= pieces.push(rest));
        pieces = pieces.push(rest);
    }
    parts.push(r);
    parts
}

/// A hotkey modifier.
#[derive(Debug, Clone, Copy, PartialEq, Eq, Structural)]
pub enum Modifier {
    /// Cmd on macOS, the Windows key elsewhere.
    Meta,
    Control,
    Alt,
    Shift,
}

/// The set of modifiers a hotkey holds.
#[derive(Debug, Clone, Copy, PartialEq, Eq, Structural)]
pub struct HotkeyModifiers {
    pub meta: bool,
    pub control: bool,
    pub alt: bool,
    pub shift: bool,
}

pub open spec fn has_modifier(m: HotkeyModifiers, k: Modifier) -> bool {
    match k {
        Modifier::Meta => m.meta,
        Modifier::Control => m.control,
        Modifier::Alt => m.alt,
        Modifier::Shift => m.shift,
    }
}

pub open spec fn with_modifier(m: HotkeyModifiers, k: Modifier) -> HotkeyModifiers {
    match k {
        Modifier::Meta => HotkeyModifiers { meta: true, ..m },
        Modifier::Control => HotkeyModifiers { control: true, ..m },
        Modifier::Alt => HotkeyModifiers { alt: true, ..m },
        Modifier::Shift => HotkeyModifiers { shift: true, ..m },
    }
}

pub open spec fn no_modifiers() -> HotkeyModifiers {
    HotkeyModifiers { meta: false, control: false, alt: false, shift: false }
}

impl HotkeyModifiers {
    pub fn contains(&self, k: Modifier) -> (b: bool)
        ensures
            b == has_modifier(*self, k),
    {
        match k {
            Modifier::Meta => self.meta,
            Modifier::Control => self.control,
            Modifier::Alt => self.alt,
            Modifier::Shift => self.shift,
        }
    }

    pub fn is_empty(&self) -> (b: bool)
        ensures
            b == (*self == no_modifiers()),
    {
        !self.meta && !self.control && !self.alt && !self.shift
    }
}

/// The key of a hotkey.
#[derive(Debug, Clone, Copy, PartialEq, Eq, Structural)]
pub enum KeyCode {
    /// `A` to `Z`, upper case.
    Letter(char),
    /// `0` to `9`.
    Digit(char),
    /// `F1` to `F24`.
    F(u8),
    Space,
    Enter,
    Tab,
    Backspace,
    Escape,
}

pub open spec fn lower_seq(s: Seq<char>) -> Seq<char> {
    s.map_values(|c: char| ascii_lower(c))
}

pub open spec fn upper_seq(s: Seq<char>) -> Seq<char> {
    s.map_values(|c: char| ascii_upper(c))
}

/// Modifier names, in any letter case: Cmd, Meta, Super; Ctrl, Control;
/// Alt, Opt, Option; Shift.
pub open spec fn spec_parse_modifier(s: Seq<char>) -> Option<Modifier> {
    let l = lower_seq(s);
    if l == seq!['c', 'm', 'd'] || l == seq!['m', 'e', 't', 'a'] || l == seq!['s', 'u', 'p', 'e', 'r'] {
        Some(Modifier::Meta)
    } else if l == seq!['c', 't', 'r', 'l'] || l == seq!['c', 'o', 'n', 't', 'r', 'o', 'l'] {
        Some(Modifier::Control)
    } else if l == seq!['a', 'l', 't'] || l == seq!['o', 'p', 't'] || l == seq![
        'o',
        'p',
        't',
        'i',
        'o',
        'n',
    ] {
        Some(Modifier::Alt)
    } else if l == seq!['s', 'h', 'i', 'f', 't'] {
        Some(Modifier::Shift)
    } else {
        None
    }
}

pub open spec fn is_digit(c: char) -> bool {
    '0' <= c && c <= '9'
}

pub open spec fn digit_value(c: char) -> nat {
    ((c as u32) - ('0' as u32)) as nat
}

/// The decimal value of a string of digits.
pub open spec fn digits_value(s: Seq<char>) -> nat
    decreases s.len(),
{
    if s.len() == 0 {
        0
    } else {
        digits_value(s.drop_last()) * 10 + digit_value(s.last())
    }
}

/// `s` without a leading `+`.
pub open spec fn unsigned_digits(s: Seq<char>) -> Seq<char> {
    if s.len() > 0 && s[0] == '+' { s.drop_first() } else { s }
}

pub open spec fn all_digits(d: Seq<char>) -> bool {
    forall|i: int| 0 <= i < d.len() ==> is_digit(#[trigger] d[i])
}

/// `u8::from_str`: an optional `+`, then at least one digit, with a value
/// of at most 255.
pub open spec fn spec_parse_u8(s: Seq<char>) -> Option<nat> {
    let d = unsigned_digits(s);
    if d.len() == 0 || !all_digits(d) {
        None
    } else if digits_value(d) > 255 {
        None
    } else {
        Some(digits_value(d))
    }
}

/// Key names, in any letter case: a single letter or digit, `F1` to `F24`,
/// Space, Enter or Return, Tab, Backspace, Escape or Esc.
pub open spec fn spec_parse_code(s: Seq<char>) -> Option<KeyCode> {
    let u = upper_seq(s);
    if u.len() == 1 && (u[0] as u32) < 0x80 && 'A' <= u[0] && u[0] <= 'Z' {
        Some(KeyCode::Letter(u[0]))
    } else if u.len() == 1 && is_digit(u[0]) {
        Some(KeyCode::Digit(u[0]))
    } else if u.len() >= 1 && u[0] == 'F' && spec_parse_u8(u.drop_first()) is Some {
        let n = spec_parse_u8(u.drop_first())->0;
        if 1 <= n && n <= 24 {
            Some(KeyCode::F(n as u8))
        } else {
            None
        }
    } else if u == seq!['S', 'P', 'A', 'C', 'E'] {
        Some(KeyCode::Space)
    } else if u == seq!['E', 'N', 'T', 'E', 'R'] || u == seq!['R', 'E', 'T', 'U', 'R', 'N'] {
        Some(KeyCode::Enter)
    } else if u == seq!['T', 'A', 'B'] {
        Some(KeyCode::Tab)
    } else if u == seq!['B', 'A', 'C', 'K', 'S', 'P', 'A', 'C', 'E'] {
        Some(KeyCode::Backspace)
    } else if u == seq!['E', 'S', 'C', 'A', 'P', 'E'] || u == seq!['E', 'S', 'C'] {
        Some(KeyCode::Escape)
    } else {
        None
    }
}

/// The lower-cased copy of `s[from..to]`.
fn lowered(s: &Vec<char>, from: usize, to: usize) -> (r: Vec<char>)
    requires
        from <= to <= s@.len(),
    ensures
        r@ == lower_seq(s@.subrange(from as int, to as int)),
{
    let mut r: Vec<char> = Vec::new();
    let mut i = from;
    while i < to
        invariant
            from <= i <= to <= s@.len(),
            r@ == lower_seq(s@.subrange(from as int, i as int)),
        decreases to - i,
    {
        r.push(to_ascii_lowercase(s[i]));
        i = i + 1;
        assert(r@ =~= lower_seq(s@.subrange(from as int, i as int)));
    }
    r
}

/// The upper-cased copy of `s[from..to]`.
fn uppered(s: &Vec<char>, from: usize, to: usize) -> (r: Vec<char>)
    requires
        from <= to <= s@.len(),
    ensures
        r@ == upper_seq(s@.subrange(from as int, to as int)),
{
    let mut r: Vec<char> = Vec::new();
    let mut i = from;
    while i < to
        invariant
            from <= i <= to <= s@.len(),
            r@ == upper_seq(s@.subrange(from as int, i as int)),
        decreases to - i,
    {
        r.push(to_ascii_uppercase(s[i]));
        i = i + 1;
        assert(r@ =~= upper_seq(s@.subrange(from as int, i as int)));
    }
    r
}

/// `v` holds exactly the characters of `word`.
fn is_word(v: &Vec<char>, word: &[char]) -> (b: bool)
    ensures
        b == (v@ == word@),
{
    if v.len() != word.len() {
        return false;
    }
    let mut i: usize = 0;
    while i < v.len()
        invariant
            v@.len() == word@.len(),
            0 <= i <= v@.len(),
            forall|k: int| 0 <= k < i ==> v@[k] == word@[k],
        decreases v@.len() - i,
    {
        if v[i] != word[i] {
            return false;
        }
        i = i + 1;
    }
    assert(v@ =~= word@);
    true
}

fn parse_modifier(s: &Vec<char>, from: usize, to: usize) -> (r: Option<Modifier>)
    requires
        from <= to <= s@.len(),
    ensures
        r == spec_parse_modifier(s@.subrange(from as int, to as int)),
{
    let l = lowered(s, from, to);
    if is_word(&l, &['c', 'm', 'd']) || is_word(&l, &['m', 'e', 't', 'a']) || is_word(
        &l,
        &['s', 'u', 'p', 'e', 'r'],
    ) {
        Some(Modifier::Meta)
    } else if is_word(&l, &['c', 't', 'r', 'l']) || is_word(&l, &['c', 'o', 'n', 't', 'r', 'o', 'l']) {
        Some(Modifier::Control)
    } else if is_word(&l, &['a', 'l', 't']) || is_word(&l, &['o', 'p', 't']) || is_word(
        &l,
        &['o', 'p', 't', 'i', 'o', 'n'],
    ) {
        Some(Modifier::Alt)
    } else if is_word(&l, &['s', 'h', 'i', 'f', 't']) {
        Some(Modifier::Shift)
    } else {
        None
    }
}

proof fn lemma_digits_push(s: Seq<char>, c: char)
    ensures
        digits_value(s.push(c)) == digits_value(s) * 10 + digit_value(c),
{
    assert(s.push(c).drop_last() =~= s);
}

pub open spec fn cap256(v: nat) -> nat {
    if v > 255 { 256 } else { v }
}

/// `u8::from_str` on `v[from..]`.
fn parse_u8(v: &Vec<char>, from: usize) -> (r: Option<u8>)
    requires
        from <= v@.len(),
    ensures
        match spec_parse_u8(v@.subrange(from as int, v@.len() as int)) {
            Some(n) => r == Some(n as u8),
            None => r is None,
        },
{
    let ghost s = v@.subrange(from as int, v@.len() as int);
    let mut i = from;
    if i < v.len() && v[i] == '+' {
        i = i + 1;
    }
    let ghost d = v@.subrange(i as int, v@.len() as int);
    assert(d =~= unsigned_digits(s));
    if i == v.len() {
        return None;
    }
    let start = i;
    let mut acc: u32 = 0;
    while i < v.len()
        invariant
            start <= i <= v@.len(),
            d == v@.subrange(start as int, v@.len() as int),
            s == v@.subrange(from as int, v@.len() as int),
            d == unsigned_digits(s),
            forall|k: int| start <= k < i ==> is_digit(#[trigger] v@[k]),
            acc == cap256(digits_value(v@.subrange(start as int, i as int))),
        decreases v@.len() - i,
    {
        let c = v[i];
        if !('0' <= c && c <= '9') {
            assert(!is_digit(d[i - start]));
            return None;
        }
        let dv = (c as u32) - ('0' as u32);
        proof {
            lemma_digits_push(v@.subrange(start as int, i as int), c);
            assert(v@.subrange(start as int, i as int).push(c) =~= v@.subrange(start as int, i + 1));
        }
        acc = if acc > 255 { 256 } else { if acc * 10 + dv > 255 { 256 } else { acc * 10 + dv } };
        i = i + 1;
    }
    assert(v@.subrange(start as int, i as int) =~= d);
    assert forall|k: int| 0 <= k < d.len() implies is_digit(#[trigger] d[k]) by {
        assert(d[k] == v@[start + k]);
    }
    if acc > 255 {
        None
    } else {
        Some(acc as u8)
    }
}

/// The key named by `s[from..to]`.
fn parse_code(s: &Vec<char>, from: usize, to: usize) -> (r: Option<KeyCode>)
    requires
        from <= to <= s@.len(),
    ensures
        r == spec_parse_code(s@.subrange(from as int, to as int)),
{
    let u = uppered(s, from, to);
    if u.len() == 1 {
        let c = u[0];
        if (c as u32) < 0x80 && 'A' <= c && c <= 'Z' {
            return Some(KeyCode::Letter(c));
        }
        if '0' <= c && c <= '9' {
            return Some(KeyCode::Digit(c));
        }
    }
    if u.len() >= 1 && u[0] == 'F' {
        assert(u@.subrange(1, u@.len() as int) =~= u@.drop_first());
        match parse_u8(&u, 1) {
            Some(n) => {
                return if 1 <= n && n <= 24 { Some(KeyCode::F(n)) } else { None };
            },
            None => {},
        }
    }
    if is_word(&u, &['S', 'P', 'A', 'C', 'E']) {
        Some(KeyCode::Space)
    } else if is_word(&u, &['E', 'N', 'T', 'E', 'R']) || is_word(&u, &['R', 'E', 'T', 'U', 'R', 'N']) {
        Some(KeyCode::Enter)
    } else if is_word(&u, &['T', 'A', 'B']) {
        Some(KeyCode::Tab)
    } else if is_word(&u, &['B', 'A', 'C', 'K', 'S', 'P', 'A', 'C', 'E']) {
        Some(KeyCode::Backspace)
    } else if is_word(&u, &['E', 'S', 'C', 'A', 'P', 'E']) || is_word(&u, &['E', 'S', 'C']) {
        Some(KeyCode::Escape)
    } else {
        None
    }
}

/// Why a hotkey string was rejected.
#[derive(Debug, Clone, PartialEq, Eq)]
pub enum HotkeyError {
    /// Nothing but whitespace.
    Empty,
    /// No `+`: a hotkey needs at least one modifier and a key.
    MissingModifierOrKey,
    UnknownModifier(String),
    DuplicateModifier(String),
    NoModifier,
    UnknownKey(String),
}

pub enum HotkeyErrorView {
    Empty,
    MissingModifierOrKey,
    UnknownModifier(Seq<char>),
    DuplicateModifier(Seq<char>),
    NoModifier,
    UnknownKey(Seq<char>),
}

impl View for HotkeyError {
    type V = HotkeyErrorView;

    open spec fn view(&self) -> HotkeyErrorView {
        match self {
            HotkeyError::Empty => HotkeyErrorView::Empty,
            HotkeyError::MissingModifierOrKey => HotkeyErrorView::MissingModifierOrKey,
            HotkeyError::UnknownModifier(s) => HotkeyErrorView::UnknownModifier(s@),
            HotkeyError::DuplicateModifier(s) => HotkeyErrorView::DuplicateModifier(s@),
            HotkeyError::NoModifier => HotkeyErrorView::NoModifier,
            HotkeyError::UnknownKey(s) => HotkeyErrorView::UnknownKey(s@),
        }
    }
}

/// What a hotkey error says, in words.
pub open spec fn spec_error_message(e: HotkeyErrorView) -> Seq<char> {
    match e {
        HotkeyErrorView::Empty => "empty hotkey string"@,
        HotkeyErrorView::MissingModifierOrKey => "hotkey must have at least one modifier and a key"@,
        HotkeyErrorView::UnknownModifier(m) => "unknown modifier: "@ + m,
        HotkeyErrorView::DuplicateModifier(m) => "duplicate modifier: "@ + m,
        HotkeyErrorView::NoModifier => "at least one modifier required"@,
        HotkeyErrorView::UnknownKey(k) => "unknown key: "@ + k,
    }
}

impl HotkeyError {
    /// The error in words, naming the offending piece where there is one.
    pub fn message(&self) -> (s: String)
        ensures
            s@ == spec_error_message(self@),
    {
        match self {
            HotkeyError::Empty => String::from_str("empty hotkey string"),
            HotkeyError::MissingModifierOrKey => String::from_str(
                "hotkey must have at least one modifier and a key",
            ),
            HotkeyError::UnknownModifier(m) => {
                let mut s = String::from_str("unknown modifier: ");
                s.append(m.as_str());
                s
            },
            HotkeyError::DuplicateModifier(m) => {
                let mut s = String::from_str("duplicate modifier: ");
                s.append(m.as_str());
                s
            },
            HotkeyError::NoModifier => String::from_str("at least one modifier required"),
            HotkeyError::UnknownKey(k) => {
                let mut s = String::from_str("unknown key: ");
                s.append(k.as_str());
                s
            },
        }
    }
}

/// A parsed hotkey and the trimmed text it came from.
#[derive(Debug, Clone)]
pub struct ParsedHotkey {
    pub modifiers: HotkeyModifiers,
    pub code: KeyCode,
    pub raw: String,
}

pub struct ParsedHotkeyView {
    pub modifiers: HotkeyModifiers,
    pub code: KeyCode,
    pub raw: Seq<char>,
}

impl View for ParsedHotkey {
    type V = ParsedHotkeyView;

    open spec fn view(&self) -> ParsedHotkeyView {
        ParsedHotkeyView { modifiers: self.modifiers, code: self.code, raw: self.raw@ }
    }
}

/// The modifiers named by `mods`, in order: the first unknown or repeated
/// name is the error.
pub open spec fn fold_modifiers(mods: Seq<Seq<char>>) -> Result<HotkeyModifiers, HotkeyErrorView>
    decreases mods.len(),
{
    if mods.len() == 0 {
        Ok(no_modifiers())
    } else {
        match fold_modifiers(mods.drop_last()) {
            Err(e) => Err(e),
            Ok(m) => {
                let p = mods.last();
                match spec_parse_modifier(p) {
                    None => Err(HotkeyErrorView::UnknownModifier(p)),
                    Some(k) => if has_modifier(m, k) {
                        Err(HotkeyErrorView::DuplicateModifier(p))
                    } else {
                        Ok(with_modifier(m, k))
                    },
                }
            },
        }
    }
}

/// A hotkey string: modifiers and a key joined by `+`, surrounding
/// whitespace ignored, names in any letter case.
pub open spec fn spec_parse_hotkey(input: Seq<char>) -> Result<ParsedHotkeyView, HotkeyErrorView> {
    let t = trim(input);
    let parts = split_plus(t).map_values(|p: Seq<char>| trim(p));
    if t.len() == 0 {
        Err(HotkeyErrorView::Empty)
    } else if parts.len() < 2 {
        Err(HotkeyErrorView::MissingModifierOrKey)
    } else {
        match fold_modifiers(parts.drop_last()) {
            Err(e) => Err(e),
            Ok(m) => if m == no_modifiers() {
                Err(HotkeyErrorView::NoModifier)
            } else {
                match spec_parse_code(parts.last()) {
                    None => Err(HotkeyErrorView::UnknownKey(parts.last())),
                    Some(code) => Ok(ParsedHotkeyView { modifiers: m, code, raw: t }),
                }
            },
        }
    }
}

pub open spec fn hotkey_result_view(r: Result<ParsedHotkey, HotkeyError>) -> Result<ParsedHotkeyView, HotkeyErrorView> {
    match r {
        Ok(p) => Ok(p@),
        Err(e) => Err(e@),
    }
}

fn add_modifier(m: HotkeyModifiers, k: Modifier) -> (r: HotkeyModifiers)
    ensures
        r == with_modifier(m, k),
{
    match k {
        Modifier::Meta => HotkeyModifiers { meta: true, ..m },
        Modifier::Control => HotkeyModifiers { control: true, ..m },
        Modifier::Alt => HotkeyModifiers { alt: true, ..m },
        Modifier::Shift => HotkeyModifiers { shift: true, ..m },
    }
}

fn string_of_range(s: &Vec<char>, from: usize, to: usize) -> (r: String)
    requires
        from <= to <= s@.len(),
    ensures
        r@ == s@.subrange(from as int, to as int),
{
    let mut r = String::new();
    let mut i = from;
    while i < to
        invariant
            from <= i <= to <= s@.len(),
            r@ == s@.subrange(from as int, i as int),
        decreases to - i,
    {
        push_char(&mut r, s[i]);
        i = i + 1;
        assert(r@ =~= s@.subrange(from as int, i as int));
    }
    r
}

/// Parse a hotkey such as `Cmd+Shift+A`.
pub fn parse_hotkey_string(input: &str) -> (r: Result<ParsedHotkey, HotkeyError>)
    ensures
        hotkey_result_view(r) == spec_parse_hotkey(input@),
{
    let s = chars_of(input);
    let (a, b) = trim_range(&s, 0, s.len());
    assert(s@.subrange(0, s@.len() as int) =~= s@);
    let ghost t = trim(input@);
    let ghost parts_spec = split_plus(t).map_values(|p: Seq<char>| trim(p));
    if a == b {
        return Err(HotkeyError::Empty);
    }
    let parts = split_trimmed(&s, a, b);
    assert(parts@.len() == parts_spec.len());
    if parts.len() < 2 {
        return Err(HotkeyError::MissingModifierOrKey);
    }
    let n = parts.len() - 1;
    let mut modifiers = HotkeyModifiers { meta: false, control: false, alt: false, shift: false };
    let mut i: usize = 0;
    while i < n
        invariant
            n == parts@.len() - 1,
            0 <= i <= n,
            a < b <= s@.len(),
            s@ == input@,
            t == trim(input@),
            parts_spec.len() >= 2,
            parts@.len() == parts_spec.len(),
            t == s@.subrange(a as int, b as int),
            parts_spec == split_plus(t).map_values(|p: Seq<char>| trim(p)),
            forall|k: int|
                #![trigger parts@[k]]
                0 <= k < parts@.len() ==> a <= parts@[k].0 <= parts@[k].1 <= b && s@.subrange(
                    parts@[k].0 as int,
                    parts@[k].1 as int,
                ) == trim(split_plus(s@.subrange(a as int, b as int))[k]),
            fold_modifiers(parts_spec.take(i as int)) == Ok::<HotkeyModifiers, HotkeyErrorView>(modifiers),
        decreases n - i,
    {
        let (pa, pb) = parts[i];
        proof {
            assert(parts_spec.take(i + 1).drop_last() =~= parts_spec.take(i as int));
            assert(parts_spec[i as int] == s@.subrange(pa as int, pb as int));
        }
        match parse_modifier(&s, pa, pb) {
            None => {
                proof {
                    lemma_fold_error_persists(parts_spec, (i + 1) as int, n as int);
                    assert(parts_spec.take(n as int) =~= parts_spec.drop_last());
                }
                return Err(HotkeyError::UnknownModifier(string_of_range(&s, pa, pb)));
            },
            Some(k) => {
                if modifiers.contains(k) {
                    proof {
                        lemma_fold_error_persists(parts_spec, (i + 1) as int, n as int);
                        assert(parts_spec.take(n as int) =~= parts_spec.drop_last());
                    }
                    return Err(HotkeyError::DuplicateModifier(string_of_range(&s, pa, pb)));
                }
                modifiers = add_modifier(modifiers, k);
            },
        }
        i = i + 1;
    }
    assert(parts_spec.take(n as int) =~= parts_spec.drop_last());
    if modifiers.is_empty() {
        return Err(HotkeyError::NoModifier);
    }
    let (ka, kb) = parts[n];
    assert(parts_spec.last() == s@.subrange(ka as int, kb as int));
    match parse_code(&s, ka, kb) {
        None => Err(HotkeyError::UnknownKey(string_of_range(&s, ka, kb))),
        Some(code) => Ok(ParsedHotkey { modifiers, code, raw: string_of_range(&s, a, b) }),
    }
}

/// Once folding a prefix of the modifiers fails, folding any longer prefix
/// fails the same way.
proof fn lemma_fold_error_persists(mods: Seq<Seq<char>>, i: int, n: int)
    requires
        0 <= i <= n <= mods.len(),
        fold_modifiers(mods.take(i)) is Err,
    ensures
        fold_modifiers(mods.take(n)) == fold_modifiers(mods.take(i)),
    decreases n - i,
{
    if n > i {
        lemma_fold_error_persists(mods, i, n - 1);
        assert(mods.take(n).drop_last() =~= mods.take(n - 1));
    }
}

pub struct Config {
    pub hotkey: HotkeyConfig,
    pub save: SaveConfig,
    pub general: GeneralConfig,
}

pub struct HotkeyConfig {
    pub region: ParsedHotkey,
    pub fullscreen: ParsedHotkey,
}

pub struct SaveConfig {
    pub enabled: bool,
    /// As configured; a leading `~` stands for the home directory.
    pub directory: String,
    pub filename_template: String,
}

pub struct GeneralConfig {
    pub notification_on_fullscreen: bool,
}

/// The values a config file sets; absent keys and tables are `None`.
pub struct RawConfig {
    pub hotkey: Option<RawHotkey>,
    pub save: Option<RawSave>,
    pub general: Option<RawGeneral>,
}

pub struct RawHotkey {
    pub region: Option<String>,
    pub fullscreen: Option<String>,
}

pub struct RawSave {
    pub enabled: Option<bool>,
    pub directory: Option<String>,
    pub filename_template: Option<String>,
}

pub struct RawGeneral {
    pub notification_on_fullscreen: Option<bool>,
}

pub struct ConfigView {
    pub region: ParsedHotkeyView,
    pub fullscreen: ParsedHotkeyView,
    pub save_enabled: bool,
    pub directory: Seq<char>,
    pub filename_template: Seq<char>,
    pub notification_on_fullscreen: bool,
}

impl View for Config {
    type V = ConfigView;

    open spec fn view(&self) -> ConfigView {
        ConfigView {
            region: self.hotkey.region@,
            fullscreen: self.hotkey.fullscreen@,
            save_enabled: self.save.enabled,
            directory: self.save.directory@,
            filename_template: self.save.filename_template@,
            notification_on_fullscreen: self.general.notification_on_fullscreen,
        }
    }
}

/// Cmd+Shift+A.
pub open spec fn default_region() -> ParsedHotkeyView {
    ParsedHotkeyView {
        modifiers: HotkeyModifiers { meta: true, control: false, alt: false, shift: true },
        code: KeyCode::Letter('A'),
        raw: "Cmd+Shift+A"@,
    }
}

/// Cmd+Shift+S.
pub open spec fn default_fullscreen() -> ParsedHotkeyView {
    ParsedHotkeyView {
        modifiers: HotkeyModifiers { meta: true, control: false, alt: false, shift: true },
        code: KeyCode::Letter('S'),
        raw: "Cmd+Shift+S"@,
    }
}

/// Region hotkey Cmd+Shift+A, full-screen hotkey Cmd+Shift+S, saving off
/// into `~/Desktop` as `Screenshot_{datetime}.png`, notification after a
/// full-screen capture on.
pub open spec fn default_view() -> ConfigView {
    ConfigView {
        region: default_region(),
        fullscreen: default_fullscreen(),
        save_enabled: false,
        directory: "~/Desktop"@,
        filename_template: "Screenshot_{datetime}.png"@,
        notification_on_fullscreen: true,
    }
}

/// A configured hotkey, or `default` when the setting is absent or does not
/// parse.
pub open spec fn hotkey_or(setting: Option<Seq<char>>, default: ParsedHotkeyView) -> ParsedHotkeyView {
    match setting {
        Some(s) => match spec_parse_hotkey(s) {
            Ok(p) => p,
            Err(_) => default,
        },
        None => default,
    }
}

pub open spec fn opt_string_view(s: Option<String>) -> Option<Seq<char>> {
    match s {
        Some(s) => Some(s@),
        None => None,
    }
}

pub open spec fn or_default<T>(v: Option<T>, d: T) -> T {
    match v {
        Some(v) => v,
        None => d,
    }
}

/// The defaults with every set value applied; a hotkey that does not parse
/// keeps its default.
pub open spec fn spec_from_raw(raw: RawConfig) -> ConfigView {
    let d = default_view();
    let (region, fullscreen) = match raw.hotkey {
        Some(h) => (
            hotkey_or(opt_string_view(h.region), d.region),
            hotkey_or(opt_string_view(h.fullscreen), d.fullscreen),
        ),
        None => (d.region, d.fullscreen),
    };
    let (enabled, directory, template) = match raw.save {
        Some(s) => (
            or_default(s.enabled, d.save_enabled),
            or_default(opt_string_view(s.directory), d.directory),
            or_default(opt_string_view(s.filename_template), d.filename_template),
        ),
        None => (d.save_enabled, d.directory, d.filename_template),
    };
    let notify = match raw.general {
        Some(g) => or_default(g.notification_on_fullscreen, d.notification_on_fullscreen),
        None => d.notification_on_fullscreen,
    };
    ConfigView {
        region,
        fullscreen,
        save_enabled: enabled,
        directory,
        filename_template: template,
        notification_on_fullscreen: notify,
    }
}

fn default_region_hotkey() -> (p: ParsedHotkey)
    ensures
        p@ == default_region(),
{
    ParsedHotkey {
        modifiers: HotkeyModifiers { meta: true, control: false, alt: false, shift: true },
        code: KeyCode::Letter('A'),
        raw: String::from_str("Cmd+Shift+A"),
    }
}

fn default_fullscreen_hotkey() -> (p: ParsedHotkey)
    ensures
        p@ == default_fullscreen(),
{
    ParsedHotkey {
        modifiers: HotkeyModifiers { meta: true, control: false, alt: false, shift: true },
        code: KeyCode::Letter('S'),
        raw: String::from_str("Cmd+Shift+S"),
    }
}

impl Config {
    pub fn defaults() -> (c: Config)
        ensures
            c@ == default_view(),
    {
        Config {
            hotkey: HotkeyConfig { region: default_region_hotkey(), fullscreen: default_fullscreen_hotkey() },
            save: SaveConfig {
                enabled: false,
                directory: String::from_str("~/Desktop"),
                filename_template: String::from_str("Screenshot_{datetime}.png"),
            },
            general: GeneralConfig { notification_on_fullscreen: true },
        }
    }

    /// The defaults with every value the file sets applied.
    pub fn from_raw(raw: RawConfig) -> (c: Config)
        ensures
            c@ == spec_from_raw(raw),
    {
        let ghost raw_spec = raw;
        let mut cfg = Config::defaults();
        match raw.hotkey {
            Some(h) => {
                match h.region {
                    Some(s) => match parse_hotkey_string(s.as_str()) {
                        Ok(p) => {
                            cfg.hotkey.region = p;
                        },
                        Err(_) => {},
                    },
                    None => {},
                }
                match h.fullscreen {
                    Some(s) => match parse_hotkey_string(s.as_str()) {
                        Ok(p) => {
                            cfg.hotkey.fullscreen = p;
                        },
                        Err(_) => {},
                    },
                    None => {},
                }
            },
            None => {},
        }
        match raw.save {
            Some(sv) => {
                match sv.enabled {
                    Some(v) => {
                        cfg.save.enabled = v;
                    },
                    None => {},
                }
                match sv.directory {
                    Some(d) => {
                        cfg.save.directory = d;
                    },
                    None => {},
                }
                match sv.filename_template {
                    Some(t) => {
                        cfg.save.filename_template = t;
                    },
                    None => {},
                }
            },
            None => {},
        }
        match raw.general {
            Some(g) => match g.notification_on_fullscreen {
                Some(v) => {
                    cfg.general.notification_on_fullscreen = v;
                },
                None => {},
            },
            None => {},
        }
        cfg
    }
}


/// What a parse settles: the modifiers and key of a hotkey, or that the
/// string is not one.
pub open spec fn parse_outcome(r: Result<ParsedHotkeyView, HotkeyErrorView>) -> Option<(HotkeyModifiers, KeyCode)> {
    match r {
        Ok(p) => Some((p.modifiers, p.code)),
        Err(_) => None,
    }
}

pub open spec fn fold_outcome(r: Result<HotkeyModifiers, HotkeyErrorView>) -> Option<HotkeyModifiers> {
    match r {
        Ok(m) => Some(m),
        Err(_) => None,
    }
}

proof fn lemma_lower_char(c: char)
    ensures
        is_ws(ascii_lower(c)) == is_ws(c),
        (ascii_lower(c) == '+') == (c == '+'),
        ascii_lower(ascii_lower(c)) == ascii_lower(c),
        ascii_upper(ascii_lower(c)) == ascii_upper(c),
{
}

proof fn lemma_lower_lead_ws(s: Seq<char>)
    ensures
        lead_ws(lower_seq(s)) == lead_ws(s),
    decreases s.len(),
{
    if s.len() > 0 {
        lemma_lower_char(s[0]);
        assert(lower_seq(s).drop_first() =~= lower_seq(s.drop_first()));
        lemma_lower_lead_ws(s.drop_first());
    }
}

proof fn lemma_lower_trail_ws(s: Seq<char>)
    ensures
        trail_ws(lower_seq(s)) == trail_ws(s),
    decreases s.len(),
{
    if s.len() > 0 {
        lemma_lower_char(s.last());
        assert(lower_seq(s).drop_last() =~= lower_seq(s.drop_last()));
        lemma_lower_trail_ws(s.drop_last());
    }
}

proof fn lemma_ws_counts_bounded(s: Seq<char>)
    ensures
        lead_ws(s) <= s.len(),
        trail_ws(s) <= s.len(),
    decreases s.len(),
{
    if s.len() > 0 {
        lemma_ws_counts_bounded(s.drop_first());
        lemma_ws_counts_bounded(s.drop_last());
    }
}

proof fn lemma_lower_trim(s: Seq<char>)
    ensures
        trim(lower_seq(s)) == lower_seq(trim(s)),
{
    lemma_ws_counts_bounded(s);
    lemma_ws_counts_bounded(s.skip(lead_ws(s) as int));
    lemma_lower_lead_ws(s);
    let k = lead_ws(s) as int;
    let t = s.skip(k);
    assert(lower_seq(s).skip(k) =~= lower_seq(t));
    lemma_lower_trail_ws(t);
    assert(lower_seq(t).take(t.len() - trail_ws(t)) =~= lower_seq(t.take(t.len() - trail_ws(t))));
}

proof fn lemma_lower_split(s: Seq<char>)
    ensures
        split_plus(lower_seq(s)) == split_plus(s).map_values(|p: Seq<char>| lower_seq(p)),
    decreases s.len(),
{
    if s.len() == 0 {
        assert(lower_seq(s) =~= s);
        assert(lower_seq(Seq::<char>::empty()) =~= Seq::<char>::empty());
        assert(split_plus(s).map_values(|p: Seq<char>| lower_seq(p)) =~= seq![Seq::<char>::empty()]);
    } else {
        let t = s.drop_first();
        lemma_lower_char(s[0]);
        assert(lower_seq(s).drop_first() =~= lower_seq(t));
        lemma_lower_split(t);
        lemma_split_plus_nonempty(t);
        let rest = split_plus(t);
        let lrest = rest.map_values(|p: Seq<char>| lower_seq(p));
        assert(split_plus(lower_seq(s).drop_first()) == lrest);
        if s[0] == '+' {
            assert(lower_seq(Seq::<char>::empty()) =~= Seq::<char>::empty());
            assert(split_plus(lower_seq(s)) =~= split_plus(s).map_values(|p: Seq<char>| lower_seq(p)));
        } else {
            assert(lower_seq(seq![s[0]] + rest[0]) =~= seq![lower_seq(s)[0]] + lrest[0]);
            assert(lrest.drop_first() =~= rest.drop_first().map_values(|p: Seq<char>| lower_seq(p)));
            assert(split_plus(lower_seq(s)) =~= split_plus(s).map_values(|p: Seq<char>| lower_seq(p)));
        }
    }
}

proof fn lemma_lower_idempotent(s: Seq<char>)
    ensures
        lower_seq(lower_seq(s)) == lower_seq(s),
{
    assert forall|i: int| 0 <= i < s.len() implies #[trigger] lower_seq(lower_seq(s))[i] == lower_seq(s)[i] by {
        lemma_lower_char(s[i]);
    }
    assert(lower_seq(lower_seq(s)) =~= lower_seq(s));
}

proof fn lemma_lower_code(s: Seq<char>)
    ensures
        spec_parse_code(lower_seq(s)) == spec_parse_code(s),
{
    assert forall|i: int| 0 <= i < s.len() implies #[trigger] upper_seq(lower_seq(s))[i] == upper_seq(s)[i] by {
        lemma_lower_char(s[i]);
    }
    assert(upper_seq(lower_seq(s)) =~= upper_seq(s));
}

proof fn lemma_lower_fold(mods: Seq<Seq<char>>)
    ensures
        fold_outcome(fold_modifiers(mods.map_values(|p: Seq<char>| lower_seq(p)))) == fold_outcome(fold_modifiers(mods)),
    decreases mods.len(),
{
    if mods.len() > 0 {
        let lm = mods.map_values(|p: Seq<char>| lower_seq(p));
        assert(lm.drop_last() =~= mods.drop_last().map_values(|p: Seq<char>| lower_seq(p)));
        lemma_lower_fold(mods.drop_last());
        lemma_lower_idempotent(mods.last());
        assert(spec_parse_modifier(lm.last()) == spec_parse_modifier(mods.last()));
    }
}

/// Hotkey strings that differ only in the letter case of ASCII letters
/// parse alike: both are hotkeys or neither is, and then with the same
/// modifiers and the same key.
pub proof fn lemma_parse_ignores_case(a: Seq<char>, b: Seq<char>)
    requires
        lower_seq(a) == lower_seq(b),
    ensures
        parse_outcome(spec_parse_hotkey(a)) == parse_outcome(spec_parse_hotkey(b)),
{
    lemma_parse_as_lowered(a);
    lemma_parse_as_lowered(b);
}

proof fn lemma_parse_as_lowered(s: Seq<char>)
    ensures
        parse_outcome(spec_parse_hotkey(s)) == parse_outcome(spec_parse_hotkey(lower_seq(s))),
{
    let t = trim(s);
    let lt = trim(lower_seq(s));
    lemma_lower_trim(s);
    assert(lt == lower_seq(t));
    lemma_lower_split(t);
    let pieces = split_plus(t);
    let parts = pieces.map_values(|p: Seq<char>| trim(p));
    let lparts = split_plus(lt).map_values(|p: Seq<char>| trim(p));
    assert forall|i: int| 0 <= i < parts.len() implies #[trigger] lparts[i] == lower_seq(parts[i]) by {
        lemma_lower_trim(pieces[i]);
    }
    assert(lparts =~= parts.map_values(|p: Seq<char>| lower_seq(p)));
    if t.len() > 0 && parts.len() >= 2 {
        assert(lparts.drop_last() =~= parts.drop_last().map_values(|p: Seq<char>| lower_seq(p)));
        lemma_lower_fold(parts.drop_last());
        lemma_lower_code(parts.last());
    }
}


/// A piece with no whitespace at either end is its own trim.
proof fn lemma_trim_plain(p: Seq<char>)
    requires
        p.len() > 0,
        !is_ws(p[0]),
        !is_ws(p.last()),
    ensures
        trim(p) == p,
{
    assert(lead_ws(p) == 0);
    assert(p.skip(0) =~= p);
    assert(trail_ws(p) == 0);
    assert(p.take(p.len() as int) =~= p);
}

/// `Cmd+Shift+` followed by the letter `key`.
pub open spec fn cmd_shift(key: char) -> Seq<char> {
    seq!['C', 'm', 'd', '+', 'S', 'h', 'i', 'f', 't', '+', key]
}

/// `Cmd+Shift+` and a capital letter is a hotkey holding Cmd and Shift with
/// that letter as its key.
proof fn lemma_cmd_shift_letter(key: char)
    requires
        'A' <= key <= 'Z',
    ensures
        spec_parse_hotkey(cmd_shift(key)) == Ok::<ParsedHotkeyView, HotkeyErrorView>(
            ParsedHotkeyView {
                modifiers: HotkeyModifiers { meta: true, control: false, alt: false, shift: true },
                code: KeyCode::Letter(key),
                raw: cmd_shift(key),
            },
        ),
{
    let s = cmd_shift(key);
    let cmd = seq!['C', 'm', 'd'];
    let shift = seq!['S', 'h', 'i', 'f', 't'];
    let letter = seq![key];
    lemma_trim_plain(s);
    assert(trim(s) == s);
    lemma_split_at_plus(s, 3);
    let r1 = s.skip(4);
    assert(r1 =~= seq!['S', 'h', 'i', 'f', 't', '+', key]);
    lemma_split_at_plus(r1, 5);
    let r2 = r1.skip(6);
    assert(r2 =~= letter);
    lemma_split_no_plus(r2);
    assert(s.take(3) =~= cmd);
    assert(r1.take(5) =~= shift);
    let pieces = split_plus(s);
    assert(pieces =~= seq![cmd, shift, letter]);
    lemma_trim_plain(cmd);
    lemma_trim_plain(shift);
    lemma_trim_plain(letter);
    let parts = pieces.map_values(|p: Seq<char>| trim(p));
    assert(parts =~= pieces);
    let mods = parts.drop_last();
    assert(mods =~= seq![cmd, shift]);
    assert(mods.drop_last() =~= seq![cmd]);
    assert(mods.drop_last().drop_last() =~= Seq::<Seq<char>>::empty());
    assert(lower_seq(cmd) =~= seq!['c', 'm', 'd']);
    assert(lower_seq(shift) =~= seq!['s', 'h', 'i', 'f', 't']);
    assert(spec_parse_modifier(cmd) == Some(Modifier::Meta));
    assert(spec_parse_modifier(shift) == Some(Modifier::Shift));
    assert(fold_modifiers(Seq::<Seq<char>>::empty()) == Ok::<HotkeyModifiers, HotkeyErrorView>(
        no_modifiers(),
    ));
    assert(fold_modifiers(mods.drop_last().drop_last()) == Ok::<HotkeyModifiers, HotkeyErrorView>(
        no_modifiers(),
    ));
    assert(mods.drop_last().last() == cmd);
    assert(!has_modifier(no_modifiers(), Modifier::Meta));
    assert(fold_modifiers(mods.drop_last()) == Ok::<HotkeyModifiers, HotkeyErrorView>(
        HotkeyModifiers { meta: true, control: false, alt: false, shift: false },
    ));
    assert(fold_modifiers(mods) == Ok::<HotkeyModifiers, HotkeyErrorView>(
        HotkeyModifiers { meta: true, control: false, alt: false, shift: true },
    ));
    assert(parts.last() == letter);
    assert(upper_seq(letter) =~= letter);
    assert(spec_parse_code(letter) == Some(KeyCode::Letter(key)));
}

/// The keys a hotkey string can name: the letters `A` to `Z`, the digits,
/// `F1` to `F24`, Space, Enter, Tab, Backspace and Escape.
pub open spec fn key_code_supported(k: KeyCode) -> bool {
    match k {
        KeyCode::Letter(c) => 'A' <= c && c <= 'Z',
        KeyCode::Digit(c) => '0' <= c && c <= '9',
        KeyCode::F(n) => 1 <= n && n <= 24,
        _ => true,
    }
}

/// The decimal digit of `v`, from 0 to 9.
pub open spec fn dec_digit(v: int) -> char {
    if v == 0 { '0' } else if v == 1 { '1' } else if v == 2 { '2' } else if v == 3 { '3' }
    else if v == 4 { '4' } else if v == 5 { '5' } else if v == 6 { '6' } else if v == 7 { '7' }
    else if v == 8 { '8' } else { '9' }
}

proof fn lemma_dec_digit(v: int)
    requires
        0 <= v <= 9,
    ensures
        is_digit(dec_digit(v)),
        digit_value(dec_digit(v)) == v,
{
}

proof fn lemma_function_key_number(n: u8)
    requires
        1 <= n <= 24,
    ensures
        spec_parse_u8(key_text(KeyCode::F(n)).drop_first()) == Some(n as nat),
{
    let d = key_text(KeyCode::F(n)).drop_first();
    if n < 10 {
        lemma_dec_digit(n as int);
        assert(d =~= seq![dec_digit(n as int)]);
        assert(d.drop_last() =~= Seq::<char>::empty());
        assert(digits_value(Seq::<char>::empty()) == 0);
        assert(d.last() == dec_digit(n as int));
        assert(digits_value(d) == n);
    } else {
        lemma_dec_digit(n as int / 10);
        lemma_dec_digit(n as int % 10);
        let d1 = d.drop_last();
        assert(d =~= seq![dec_digit(n as int / 10), dec_digit(n as int % 10)]);
        assert(d1 =~= seq![dec_digit(n as int / 10)]);
        assert(d1.drop_last() =~= Seq::<char>::empty());
        assert(digits_value(Seq::<char>::empty()) == 0);
        assert(d1.last() == dec_digit(n as int / 10));
        assert(d.last() == dec_digit(n as int % 10));
        assert(digits_value(d1) == n as int / 10);
        assert(digits_value(d) == (n as int / 10) * 10 + n as int % 10);
    }
    assert(unsigned_digits(d) == d);
    assert(all_digits(d));
}

/// The text of the key `k` in a hotkey string, in upper case: the letter
/// or digit itself, `F` and the number, or the key's name.
pub open spec fn key_text(k: KeyCode) -> Seq<char> {
    match k {
        KeyCode::Letter(c) => seq![c],
        KeyCode::Digit(c) => seq![c],
        KeyCode::F(n) => if n < 10 {
            seq!['F', dec_digit(n as int)]
        } else {
            seq!['F', dec_digit(n as int / 10), dec_digit(n as int % 10)]
        },
        KeyCode::Space => seq!['S', 'P', 'A', 'C', 'E'],
        KeyCode::Enter => seq!['E', 'N', 'T', 'E', 'R'],
        KeyCode::Tab => seq!['T', 'A', 'B'],
        KeyCode::Backspace => seq!['B', 'A', 'C', 'K', 'S', 'P', 'A', 'C', 'E'],
        KeyCode::Escape => seq!['E', 'S', 'C', 'A', 'P', 'E'],
    }
}

/// Every key a hotkey string can name is read from its text, written in
/// any letter case: `a` and `A` give the letter A, `5` the digit 5, `f7`
/// and `F7` the key F7, `space` and `Space` the space bar.
pub proof fn lemma_parse_code_reads_keys(k: KeyCode, s: Seq<char>)
    requires
        key_code_supported(k),
        lower_seq(s) == lower_seq(key_text(k)),
    ensures
        spec_parse_code(s) == Some(k),
{
    lemma_lower_code(s);
    lemma_lower_code(key_text(k));
    lemma_key_text_parses(k);
}

proof fn lemma_key_text_parses(k: KeyCode)
    requires
        key_code_supported(k),
    ensures
        spec_parse_code(key_text(k)) == Some(k),
{
    let t = key_text(k);
    assert(upper_seq(t) =~= t) by {
        assert forall|i: int| 0 <= i < t.len() implies #[trigger] ascii_upper(t[i]) == t[i] by {
            if let KeyCode::F(n) = k {
                if n < 10 {
                    lemma_dec_digit(n as int);
                } else {
                    lemma_dec_digit(n as int / 10);
                    lemma_dec_digit(n as int % 10);
                }
            }
        }
    }
    match k {
        KeyCode::F(n) => {
            lemma_function_key_number(n);
            assert(t.len() >= 1 && t[0] == 'F');
        },
        KeyCode::Letter(c) => {
            assert(t.len() == 1 && t[0] == c);
        },
        KeyCode::Digit(c) => {
            assert(t.len() == 1 && t[0] == c);
        },
        _ => {},
    }
}

/// The modifier names, in any letter case: `cmd`, `meta` and `super` name
/// the system key (Meta), `ctrl` and `control` name Control, `alt`, `opt`
/// and `option` name Alt, and `shift` names Shift.
pub proof fn lemma_modifier_names(s: Seq<char>)
    ensures
        lower_seq(s) =~= seq!['c', 'm', 'd'] ==> spec_parse_modifier(s) == Some(Modifier::Meta),
        lower_seq(s) =~= seq!['m', 'e', 't', 'a'] ==> spec_parse_modifier(s) == Some(Modifier::Meta),
        lower_seq(s) =~= seq!['s', 'u', 'p', 'e', 'r'] ==> spec_parse_modifier(s) == Some(Modifier::Meta),
        lower_seq(s) =~= seq!['c', 't', 'r', 'l'] ==> spec_parse_modifier(s) == Some(Modifier::Control),
        lower_seq(s) =~= seq!['c', 'o', 'n', 't', 'r', 'o', 'l'] ==> spec_parse_modifier(s) == Some(
            Modifier::Control,
        ),
        lower_seq(s) =~= seq!['a', 'l', 't'] ==> spec_parse_modifier(s) == Some(Modifier::Alt),
        lower_seq(s) =~= seq!['o', 'p', 't'] ==> spec_parse_modifier(s) == Some(Modifier::Alt),
        lower_seq(s) =~= seq!['o', 'p', 't', 'i', 'o', 'n'] ==> spec_parse_modifier(s) == Some(
            Modifier::Alt,
        ),
        lower_seq(s) =~= seq!['s', 'h', 'i', 'f', 't'] ==> spec_parse_modifier(s) == Some(Modifier::Shift),
{
}

/// The default hotkeys are exactly what their own text parses to.
pub proof fn lemma_default_hotkeys_parse()
    ensures
        spec_parse_hotkey(default_region().raw) == Ok::<ParsedHotkeyView, HotkeyErrorView>(
            default_region(),
        ),
        spec_parse_hotkey(default_fullscreen().raw) == Ok::<ParsedHotkeyView, HotkeyErrorView>(
            default_fullscreen(),
        ),
{
    reveal_strlit("Cmd+Shift+A");
    reveal_strlit("Cmd+Shift+S");
    assert("Cmd+Shift+A"@ =~= cmd_shift('A'));
    assert("Cmd+Shift+S"@ =~= cmd_shift('S'));
    lemma_cmd_shift_letter('A');
    lemma_cmd_shift_letter('S');
}

/// A hotkey setting that is not a valid hotkey string leaves that hotkey at
/// its default, and a valid one is used as parsed: bad input never replaces
/// a working binding.
pub proof fn lemma_hotkey_setting(raw: RawConfig, s: String)
    requires
        raw.hotkey matches Some(h) && h.region == Some(s),
    ensures
        spec_parse_hotkey(s@) is Err ==> spec_from_raw(raw).region == default_region(),
        spec_parse_hotkey(s@) matches Ok(p) ==> spec_from_raw(raw).region == p,
{
}

/// Settings a config file leaves out keep their defaults.
pub proof fn lemma_absent_settings_default(raw: RawConfig)
    ensures
        raw.hotkey is None ==> spec_from_raw(raw).region == default_region()
            && spec_from_raw(raw).fullscreen == default_fullscreen(),
        raw.save is None ==> !spec_from_raw(raw).save_enabled && spec_from_raw(raw).directory
            == default_view().directory && spec_from_raw(raw).filename_template
            == default_view().filename_template,
        raw.general is None ==> spec_from_raw(raw).notification_on_fullscreen,
{
}

/// How a configured path starts relative to the home directory.
#[derive(Debug, Clone, PartialEq, Eq)]
pub enum HomeExpansion {
    /// `~/` and then this rest: the rest joined onto the home directory.
    UnderHome(String),
    /// Exactly `~`: the home directory itself.
    Home,
    /// Any other path, or no known home directory: the path as written.
    AsWritten,
}

pub enum HomeExpansionView {
    UnderHome(Seq<char>),
    Home,
    AsWritten,
}

impl View for HomeExpansion {
    type V = HomeExpansionView;

    open spec fn view(&self) -> HomeExpansionView {
        match self {
            HomeExpansion::UnderHome(r) => HomeExpansionView::UnderHome(r@),
            HomeExpansion::Home => HomeExpansionView::Home,
            HomeExpansion::AsWritten => HomeExpansionView::AsWritten,
        }
    }
}

/// `~/rest` expands under the home directory and `~` to it, when the home
/// directory is known; every other path stays as written.
pub open spec fn spec_home_expansion(input: Seq<char>, home_known: bool) -> HomeExpansionView {
    if home_known && input.len() >= 2 && input[0] == '~' && input[1] == '/' {
        HomeExpansionView::UnderHome(input.skip(2))
    } else if home_known && input == seq!['~'] {
        HomeExpansionView::Home
    } else {
        HomeExpansionView::AsWritten
    }
}

/// Which form of home expansion `input` takes; the caller, which knows the
/// home directory, joins the path.
pub fn home_expansion(input: &str, home_known: bool) -> (r: HomeExpansion)
    ensures
        r@ == spec_home_expansion(input@, home_known),
{
    let s = chars_of(input);
    let n = s.len();
    if home_known && n >= 2 && s[0] == '~' && s[1] == '/' {
        let rest = string_of_range(&s, 2, n);
        assert(s@.subrange(2, n as int) =~= input@.skip(2));
        HomeExpansion::UnderHome(rest)
    } else if home_known && n == 1 && s[0] == '~' {
        assert(input@ =~= seq!['~']);
        HomeExpansion::Home
    } else {
        proof {
            if home_known && input@ == seq!['~'] {
                assert(s@[0] == '~');
            }
        }
        HomeExpansion::AsWritten
    }
}

} // verus!

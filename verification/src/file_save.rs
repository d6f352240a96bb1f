//! File names for saved captures: templates with `{date}`, `{time}`,
//! `{datetime}`, `{w}`, `{h}` and `{mode}` placeholders, and the numbered
//! names tried when a name is taken. Writing the PNG and probing the disk
//! happen at the application's edge.

use vstd::prelude::*;

use crate::strings::{chars_of, push_char};

verus! {

/// Which kind of capture produced an image.
#[derive(Debug, Clone, Copy, PartialEq, Eq, Structural)]
pub enum CaptureMode {
    Region,
    Fullscreen,
}

pub open spec fn mode_name(m: CaptureMode) -> Seq<char> {
    match m {
        CaptureMode::Region => seq!['r', 'e', 'g', 'i', 'o', 'n'],
        CaptureMode::Fullscreen => seq!['f', 'u', 'l', 'l', 's', 'c', 'r', 'e', 'e', 'n'],
    }
}

impl CaptureMode {
    /// `region` or `fullscreen`.
    pub fn as_str(self) -> (s: &'static str)
        ensures
            s@ == mode_name(self),
    {
        match self {
            CaptureMode::Region => {
                let s = "region";
                proof {
                    reveal_strlit("region");
                }
                s
            },
            CaptureMode::Fullscreen => {
                let s = "fullscreen";
                proof {
                    reveal_strlit("fullscreen");
                }
                s
            },
        }
    }
}

/// A local calendar date and wall-clock time.
#[derive(Debug, Clone, Copy, PartialEq, Eq, Structural)]
pub struct DateTimeParts {
    pub year: i32,
    /// 1 to 12.
    pub month: u8,
    pub day: u8,
    pub hour: u8,
    pub minute: u8,
    pub second: u8,
}

/// What the placeholders of a template stand for.
pub struct TemplateContext {
    pub width: u32,
    pub height: u32,
    pub mode: CaptureMode,
    pub now: DateTimeParts,
    /// Set once a template holds a placeholder this module does not know.
    pub warn_unknown: bool,
}

pub open spec fn digit_char(d: nat) -> char {
    (('0' as u32) + d) as char
}

/// Decimal digits of `n`, without leading zeros ("0" for zero).
pub open spec fn dec(n: nat) -> Seq<char>
    decreases n,
{
    if n < 10 {
        seq![digit_char(n)]
    } else {
        dec(n / 10).push(digit_char(n % 10))
    }
}

pub open spec fn zeros(k: nat) -> Seq<char> {
    Seq::new(k, |i: int| '0')
}

/// `n` in decimal, left-padded with zeros to at least `width` characters.
pub open spec fn padded(n: nat, width: nat) -> Seq<char> {
    let d = dec(n);
    if d.len() < width { zeros((width - d.len()) as nat) + d } else { d }
}

/// `v` as `format!("{:0w$}", v)` writes it: the sign counts toward the
/// width and the zeros go after it.
pub open spec fn padded_signed(v: int, width: nat) -> Seq<char> {
    if v < 0 {
        seq!['-'] + padded((-v) as nat, if width >= 1 { (width - 1) as nat } else { 0 })
    } else {
        padded(v as nat, width)
    }
}

/// `YYYY-MM-DD`.
pub open spec fn date_text(t: DateTimeParts) -> Seq<char> {
    padded_signed(t.year as int, 4) + seq!['-'] + padded(t.month as nat, 2) + seq!['-'] + padded(
        t.day as nat,
        2,
    )
}

/// `HH-MM-SS`.
pub open spec fn time_text(t: DateTimeParts) -> Seq<char> {
    padded(t.hour as nat, 2) + seq!['-'] + padded(t.minute as nat, 2) + seq!['-'] + padded(
        t.second as nat,
        2,
    )
}

/// Which placeholder `p` names: 0 date, 1 time, 2 datetime, 3 w, 4 h,
/// 5 mode, 6 none of them.
pub open spec fn placeholder_kind(p: Seq<char>) -> u8 {
    if p == seq!['d', 'a', 't', 'e'] {
        0
    } else if p == seq!['t', 'i', 'm', 'e'] {
        1
    } else if p == seq!['d', 'a', 't', 'e', 't', 'i', 'm', 'e'] {
        2
    } else if p == seq!['w'] {
        3
    } else if p == seq!['h'] {
        4
    } else if p == seq!['m', 'o', 'd', 'e'] {
        5
    } else {
        6
    }
}

pub open spec fn known_placeholder(p: Seq<char>) -> bool {
    placeholder_kind(p) != 6
}

/// What the placeholder named `p` becomes; an unknown name stays as it was
/// written, braces included.
pub open spec fn replacement(p: Seq<char>, ctx: TemplateContext) -> Seq<char> {
    let k = placeholder_kind(p);
    if k == 0 {
        date_text(ctx.now)
    } else if k == 1 {
        time_text(ctx.now)
    } else if k == 2 {
        date_text(ctx.now) + seq!['_'] + time_text(ctx.now)
    } else if k == 3 {
        dec(ctx.width as nat)
    } else if k == 4 {
        dec(ctx.height as nat)
    } else if k == 5 {
        mode_name(ctx.mode)
    } else {
        seq!['{'] + p + seq!['}']
    }
}

/// Index of the first `c` in `s` at or after `i`, or `s.len()`.
pub open spec fn find_from(s: Seq<char>, c: char, i: int) -> int
    decreases s.len() - i,
{
    if i >= s.len() {
        s.len() as int
    } else if s[i] == c {
        i
    } else {
        find_from(s, c, i + 1)
    }
}

proof fn lemma_find_from_range(s: Seq<char>, c: char, i: int)
    requires
        0 <= i <= s.len(),
    ensures
        i <= find_from(s, c, i) <= s.len(),
        find_from(s, c, i) < s.len() ==> s[find_from(s, c, i)] == c,
    decreases s.len() - i,
{
    if i < s.len() && s[i] != c {
        lemma_find_from_range(s, c, i + 1);
    }
}

/// The template from position `i` on with every `{name}` replaced; text
/// after a `{` that has no matching `}` is copied as is.
pub open spec fn interpolate_from(s: Seq<char>, ctx: TemplateContext, i: int) -> Seq<char>
    decreases s.len() - i,
{
    if i < 0 || i >= s.len() {
        Seq::empty()
    } else {
        let a = find_from(s, '{', i);
        if a >= s.len() || a < i {
            s.subrange(i, s.len() as int)
        } else {
            let b = find_from(s, '}', a);
            if b >= s.len() || b < a {
                s.subrange(i, s.len() as int)
            } else {
                s.subrange(i, a) + replacement(s.subrange(a + 1, b), ctx) + interpolate_from(
                    s,
                    ctx,
                    b + 1,
                )
            }
        }
    }
}

/// Some placeholder from position `i` on is unknown.
pub open spec fn has_unknown_from(s: Seq<char>, i: int) -> bool
    decreases s.len() - i,
{
    if i < 0 || i >= s.len() {
        false
    } else {
        let a = find_from(s, '{', i);
        if a >= s.len() || a < i {
            false
        } else {
            let b = find_from(s, '}', a);
            if b >= s.len() || b < a {
                false
            } else {
                !known_placeholder(s.subrange(a + 1, b)) || has_unknown_from(s, b + 1)
            }
        }
    }
}

fn find_char(s: &Vec<char>, c: char, i: usize) -> (r: usize)
    requires
        i <= s@.len(),
    ensures
        r == find_from(s@, c, i as int),
        i <= r <= s@.len(),
{
    let mut j = i;
    while j < s.len() && s[j] != c
        invariant
            i <= j <= s@.len(),
            find_from(s@, c, i as int) == find_from(s@, c, j as int),
        decreases s@.len() - j,
    {
        j = j + 1;
    }
    j
}

fn push_range(out: &mut String, s: &Vec<char>, from: usize, to: usize)
    requires
        from <= to <= s@.len(),
    ensures
        final(out)@ == old(out)@ + s@.subrange(from as int, to as int),
{
    let mut i = from;
    while i < to
        invariant
            from <= i <= to <= s@.len(),
            out@ == old(out)@ + s@.subrange(from as int, i as int),
        decreases to - i,
    {
        push_char(out, s[i]);
        i = i + 1;
        assert(out@ =~= old(out)@ + s@.subrange(from as int, i as int));
    }
}

fn push_seq(out: &mut String, s: &[char])
    ensures
        final(out)@ == old(out)@ + s@,
{
    let mut i: usize = 0;
    while i < s.len()
        invariant
            0 <= i <= s@.len(),
            out@ == old(out)@ + s@.subrange(0, i as int),
        decreases s@.len() - i,
    {
        push_char(out, s[i]);
        i = i + 1;
        assert(out@ =~= old(out)@ + s@.subrange(0, i as int));
    }
    assert(s@.subrange(0, s@.len() as int) =~= s@);
}

fn range_is(s: &Vec<char>, from: usize, to: usize, word: &[char]) -> (b: bool)
    requires
        from <= to <= s@.len(),
    ensures
        b == (s@.subrange(from as int, to as int) == word@),
{
    if to - from != word.len() {
        return false;
    }
    let mut i: usize = 0;
    while i < word.len()
        invariant
            to - from == word@.len(),
            from <= to <= s@.len(),
            0 <= i <= word@.len(),
            forall|k: int| 0 <= k < i ==> s@[from + k] == word@[k],
        decreases word@.len() - i,
    {
        if s[from + i] != word[i] {
            return false;
        }
        i = i + 1;
    }
    assert(s@.subrange(from as int, to as int) =~= word@);
    true
}

/// Append the decimal digits of `n`.
pub(crate) fn push_dec(out: &mut String, n: u64)
    ensures
        final(out)@ == old(out)@ + dec(n as nat),
    decreases n,
{
    if n < 10 {
        push_char(out, ((n as u8) + 48) as char);
        assert(((n as u8) + 48) as char == digit_char(n as nat));
    } else {
        push_dec(out, n / 10);
        let d = n % 10;
        push_char(out, ((d as u8) + 48) as char);
        assert(((d as u8) + 48) as char == digit_char((n % 10) as nat));
        assert(old(out)@ + dec((n / 10) as nat) + seq![digit_char((n % 10) as nat)] =~= old(out)@
            + dec(n as nat));
    }
}

proof fn lemma_dec_len(n: nat)
    ensures
        dec(n).len() >= 1,
        n < 10 ==> dec(n).len() == 1,
        n < 100 ==> dec(n).len() <= 2,
        n < 1000 ==> dec(n).len() <= 3,
        n < 10000 ==> dec(n).len() <= 4,
        dec(n).len() <= n + 1,
    decreases n,
{
    if n >= 10 {
        lemma_dec_len(n / 10);
    }
}

/// The number of decimal digits of `n`.
fn dec_len(n: u64) -> (k: u64)
    ensures
        k == dec(n as nat).len(),
    decreases n,
{
    if n < 10 {
        1
    } else {
        let k = dec_len(n / 10);
        proof {
            lemma_dec_len((n / 10) as nat);
        }
        assert(dec(n as nat).len() == dec((n / 10) as nat).len() + 1);
        k + 1
    }
}

/// Append `n` zero-padded to `width` characters.
fn push_padded(out: &mut String, n: u64, width: u64)
    ensures
        final(out)@ == old(out)@ + padded(n as nat, width as nat),
{
    let k = dec_len(n);
    if k < width {
        let mut z: u64 = 0;
        while z < width - k
            invariant
                k < width,
                0 <= z <= width - k,
                out@ == old(out)@ + zeros(z as nat),
            decreases width - k - z,
        {
            push_char(out, '0');
            z = z + 1;
            assert(out@ =~= old(out)@ + zeros(z as nat));
        }
    }
    let ghost mid = out@;
    push_dec(out, n);
    assert(out@ =~= old(out)@ + padded(n as nat, width as nat));
}

fn push_date(out: &mut String, t: DateTimeParts)
    ensures
        final(out)@ == old(out)@ + date_text(t),
{
    if t.year < 0 {
        push_char(out, '-');
        let v: u64 = (-(t.year as i64)) as u64;
        push_padded(out, v, 3);
    } else {
        push_padded(out, t.year as u64, 4);
    }
    push_char(out, '-');
    push_padded(out, t.month as u64, 2);
    push_char(out, '-');
    push_padded(out, t.day as u64, 2);
    assert(out@ =~= old(out)@ + date_text(t));
}

fn push_time(out: &mut String, t: DateTimeParts)
    ensures
        final(out)@ == old(out)@ + time_text(t),
{
    push_padded(out, t.hour as u64, 2);
    push_char(out, '-');
    push_padded(out, t.minute as u64, 2);
    push_char(out, '-');
    push_padded(out, t.second as u64, 2);
    assert(out@ =~= old(out)@ + time_text(t));
}

fn classify_placeholder(s: &Vec<char>, from: usize, to: usize) -> (k: u8)
    requires
        from <= to <= s@.len(),
    ensures
        k == placeholder_kind(s@.subrange(from as int, to as int)),
{
    let date = vec!['d', 'a', 't', 'e'];
    let time = vec!['t', 'i', 'm', 'e'];
    let datetime = vec!['d', 'a', 't', 'e', 't', 'i', 'm', 'e'];
    let w = vec!['w'];
    let h = vec!['h'];
    let mode = vec!['m', 'o', 'd', 'e'];
    assert(date@ =~= seq!['d', 'a', 't', 'e']);
    assert(time@ =~= seq!['t', 'i', 'm', 'e']);
    assert(datetime@ =~= seq!['d', 'a', 't', 'e', 't', 'i', 'm', 'e']);
    assert(w@ =~= seq!['w']);
    assert(h@ =~= seq!['h']);
    assert(mode@ =~= seq!['m', 'o', 'd', 'e']);
    if range_is(s, from, to, date.as_slice()) {
        0
    } else if range_is(s, from, to, time.as_slice()) {
        1
    } else if range_is(s, from, to, datetime.as_slice()) {
        2
    } else if range_is(s, from, to, w.as_slice()) {
        3
    } else if range_is(s, from, to, h.as_slice()) {
        4
    } else if range_is(s, from, to, mode.as_slice()) {
        5
    } else {
        6
    }
}

/// Append what the placeholder `s[from..to]` stands for.
fn push_replacement(out: &mut String, s: &Vec<char>, from: usize, to: usize, ctx: &TemplateContext) -> (known: bool)
    requires
        from <= to <= s@.len(),
    ensures
        final(out)@ == old(out)@ + replacement(s@.subrange(from as int, to as int), *ctx),
        known == known_placeholder(s@.subrange(from as int, to as int)),
{
    let ghost p = s@.subrange(from as int, to as int);
    let k = classify_placeholder(s, from, to);
    if k == 0 {
        push_date(out, ctx.now);
    } else if k == 1 {
        push_time(out, ctx.now);
    } else if k == 2 {
        push_date(out, ctx.now);
        push_char(out, '_');
        push_time(out, ctx.now);
        assert(out@ =~= old(out)@ + (date_text(ctx.now) + seq!['_'] + time_text(ctx.now)));
    } else if k == 3 {
        push_dec(out, ctx.width as u64);
    } else if k == 4 {
        push_dec(out, ctx.height as u64);
    } else if k == 5 {
        match ctx.mode {
            CaptureMode::Region => push_seq(out, &['r', 'e', 'g', 'i', 'o', 'n']),
            CaptureMode::Fullscreen => push_seq(out, &['f', 'u', 'l', 'l', 's', 'c', 'r', 'e', 'e', 'n']),
        }
    } else {
        push_char(out, '{');
        push_range(out, s, from, to);
        push_char(out, '}');
        assert(out@ =~= old(out)@ + (seq!['{'] + p + seq!['}']));
    }
    k != 6
}

/// Fill in the placeholders of `template`. Unknown placeholders are kept
/// as written and set `ctx.warn_unknown`; a `{` without a closing `}`
/// leaves the rest of the template as it is.
pub fn interpolate(template: &str, ctx: &mut TemplateContext) -> (r: String)
    ensures
        r@ == interpolate_from(template@, *old(ctx), 0),
        final(ctx).warn_unknown == (old(ctx).warn_unknown || has_unknown_from(template@, 0)),
        final(ctx).width == old(ctx).width && final(ctx).height == old(ctx).height,
        final(ctx).mode == old(ctx).mode && final(ctx).now == old(ctx).now,
{
    let s = chars_of(template);
    let mut out = String::new();
    let mut pos: usize = 0;
    let ghost c0 = *ctx;
    assert(out@ + interpolate_from(s@, c0, 0) =~= interpolate_from(s@, c0, 0));
    while pos < s.len()
        invariant_except_break
            pos <= s@.len(),
            out@ + interpolate_from(s@, c0, pos as int) == interpolate_from(s@, c0, 0),
            (c0.warn_unknown || has_unknown_from(s@, 0)) == (ctx.warn_unknown || has_unknown_from(
                s@,
                pos as int,
            )),
        invariant
            s@ == template@,
            ctx.width == c0.width && ctx.height == c0.height && ctx.mode == c0.mode && ctx.now
                == c0.now,
            c0 == *old(ctx),
        ensures
            out@ == interpolate_from(s@, c0, 0),
            ctx.warn_unknown == (c0.warn_unknown || has_unknown_from(s@, 0)),
        decreases s@.len() - pos,
    {
        let a = find_char(&s, '{', pos);
        proof {
            lemma_find_from_range(s@, '{', pos as int);
        }
        if a == s.len() {
            let ghost before = out@;
            push_range(&mut out, &s, pos, s.len());
            assert(out@ =~= before + interpolate_from(s@, c0, pos as int));
            assert(!has_unknown_from(s@, pos as int));
            break;
        }
        let b = find_char(&s, '}', a);
        proof {
            lemma_find_from_range(s@, '}', a as int);
        }
        if b == s.len() {
            let ghost before = out@;
            push_range(&mut out, &s, pos, s.len());
            assert(out@ =~= before + interpolate_from(s@, c0, pos as int));
            assert(!has_unknown_from(s@, pos as int));
            break;
        }
        let ghost before = out@;
        push_range(&mut out, &s, pos, a);
        let known = push_replacement(&mut out, &s, a + 1, b, ctx);
        proof {
            let p = s@.subrange(a + 1, b as int);
            assert(replacement(p, *ctx) == replacement(p, c0));
            assert(interpolate_from(s@, c0, pos as int) == s@.subrange(pos as int, a as int)
                + replacement(p, c0) + interpolate_from(s@, c0, b + 1));
            assert(out@ + interpolate_from(s@, c0, b + 1) =~= before + interpolate_from(
                s@,
                c0,
                pos as int,
            ));
        }
        if b + 1 >= s.len() {
            assert(interpolate_from(s@, c0, b + 1) == Seq::<char>::empty());
            assert(!has_unknown_from(s@, b + 1));
        }
        if !known {
            ctx.warn_unknown = true;
        }
        pos = b + 1;
    }
    out
}

/// The file name the save dialog proposes: `quickshot-` and the local date
/// and time as `YYYY-MM-DD-HH-MM-SS`, with the `.png` extension.
pub open spec fn spec_save_as_name(now: DateTimeParts) -> Seq<char> {
    seq!['q', 'u', 'i', 'c', 'k', 's', 'h', 'o', 't', '-'] + date_text(now) + seq!['-'] + time_text(
        now,
    ) + seq!['.', 'p', 'n', 'g']
}

/// The file name to propose for "save as", stamped with the time `now`.
pub fn save_as_name(now: DateTimeParts) -> (r: String)
    ensures
        r@ == spec_save_as_name(now),
{
    let mut out = String::new();
    let prefix = vec!['q', 'u', 'i', 'c', 'k', 's', 'h', 'o', 't', '-'];
    push_seq(&mut out, prefix.as_slice());
    push_date(&mut out, now);
    push_char(&mut out, '-');
    push_time(&mut out, now);
    let ext = vec!['.', 'p', 'n', 'g'];
    push_seq(&mut out, ext.as_slice());
    assert(out@ =~= spec_save_as_name(now));
    out
}

/// Numbered names `stem_1.ext` to `stem_99.ext` are tried when a file name
/// is taken.
pub const UNIQUIFY_LIMIT: u32 = 99;

/// `stem_n.ext`, or `stem_n` when there is no extension.
pub open spec fn spec_numbered_name(stem: Seq<char>, ext: Seq<char>, n: nat) -> Seq<char> {
    if ext.len() == 0 {
        stem + seq!['_'] + dec(n)
    } else {
        stem + seq!['_'] + dec(n) + seq!['.'] + ext
    }
}

/// The `n`-th alternative to a taken file name.
pub fn numbered_name(stem: &str, ext: &str, n: u32) -> (r: String)
    ensures
        r@ == spec_numbered_name(stem@, ext@, n as nat),
{
    let mut out = String::from_str(stem);
    push_char(&mut out, '_');
    push_dec(&mut out, n as u64);
    if !ext.is_empty() {
        push_char(&mut out, '.');
        out.append(ext);
    }
    out
}


/// `taken` answered `answer` when asked about a name spelled `name`.
pub open spec fn answered<F: Fn(String) -> bool>(taken: F, name: Seq<char>, answer: bool) -> bool {
    exists|s: String| s@ == name && call_ensures(taken, (s,), answer)
}

/// A free file name: `name` itself when `taken` says it is free, else the
/// first of `stem_1.ext` to `stem_99.ext` that it says is free, else
/// `name` again. Each candidate is asked about once, in that order.
pub fn uniquify<F: Fn(String) -> bool>(name: &str, stem: &str, ext: &str, taken: F) -> (r: String)
    requires
        forall|s: String| call_requires(taken, (s,)),
    ensures
        answered(taken, name@, false) && r@ == name@
            || answered(taken, name@, true) && (exists|n: nat|
                1 <= n <= UNIQUIFY_LIMIT
                    && r@ == spec_numbered_name(stem@, ext@, n)
                    && answered(taken, spec_numbered_name(stem@, ext@, n), false)
                    && forall|m: nat|
                    1 <= m < n ==> answered(taken, #[trigger] spec_numbered_name(stem@, ext@, m), true))
            || answered(taken, name@, true) && r@ == name@ && forall|m: nat|
                1 <= m <= UNIQUIFY_LIMIT ==> answered(taken, #[trigger] spec_numbered_name(stem@, ext@, m), true),
{
    let first = String::from_str(name);
    let ghost first_view = first@;
    let name_taken = taken(first);
    if !name_taken {
        return String::from_str(name);
    }
    let mut n: u32 = 1;
    while n <= UNIQUIFY_LIMIT
        invariant
            1 <= n <= UNIQUIFY_LIMIT + 1,
            forall|s: String| call_requires(taken, (s,)),
            answered(taken, name@, true),
            forall|m: nat| 1 <= m < n ==> answered(taken, #[trigger] spec_numbered_name(stem@, ext@, m), true),
        decreases UNIQUIFY_LIMIT + 1 - n,
    {
        let candidate = numbered_name(stem, ext, n);
        let ghost cand_view = candidate@;
        let is_taken = taken(candidate);
        if !is_taken {
            return numbered_name(stem, ext, n);
        }
        n = n + 1;
    }
    String::from_str(name)
}


proof fn lemma_find_absent(s: Seq<char>, c: char, i: int)
    requires
        0 <= i <= s.len(),
        forall|k: int| i <= k < s.len() ==> #[trigger] s[k] != c,
    ensures
        find_from(s, c, i) == s.len(),
    decreases s.len() - i,
{
    if i < s.len() {
        lemma_find_absent(s, c, i + 1);
    }
}

/// A template without `{` is used as the file name as it is, and raises no
/// warning.
pub proof fn lemma_plain_template_unchanged(template: Seq<char>, ctx: TemplateContext)
    requires
        forall|k: int| 0 <= k < template.len() ==> #[trigger] template[k] != '{',
    ensures
        interpolate_from(template, ctx, 0) == template,
        !has_unknown_from(template, 0),
{
    lemma_find_absent(template, '{', 0);
    assert(template.subrange(0, template.len() as int) =~= template);
}

/// A lone unknown placeholder is kept, braces included, and raises the
/// warning.
pub proof fn lemma_unknown_placeholder_kept(name: Seq<char>, ctx: TemplateContext)
    requires
        forall|k: int| 0 <= k < name.len() ==> #[trigger] name[k] != '}',
        !known_placeholder(name),
    ensures
        interpolate_from(seq!['{'] + name + seq!['}'], ctx, 0) == seq!['{'] + name + seq!['}'],
        has_unknown_from(seq!['{'] + name + seq!['}'], 0),
{
    let t = seq!['{'] + name + seq!['}'];
    let n = t.len() as int;
    assert(t[0] == '{');
    assert(find_from(t, '{', 0) == 0);
    assert forall|k: int| 1 <= k < n - 1 implies #[trigger] t[k] != '}' by {
        assert(t[k] == name[k - 1]);
    }
    assert(find_from(t, '}', 0) == find_from(t, '}', 1));
    lemma_find_to_close(t, 1);
    assert(t.subrange(1, n - 1) =~= name);
    assert(t.subrange(0, 0) =~= Seq::<char>::empty());
    assert(interpolate_from(t, ctx, n) == Seq::<char>::empty());
    assert(!has_unknown_from(t, n));
}

proof fn lemma_find_to_close(t: Seq<char>, i: int)
    requires
        1 <= i <= t.len() - 1,
        t.len() >= 2,
        t[t.len() - 1] == '}',
        forall|k: int| 1 <= k < t.len() - 1 ==> #[trigger] t[k] != '}',
    ensures
        find_from(t, '}', i) == t.len() - 1,
    decreases t.len() - i,
{
    if i < t.len() - 1 {
        lemma_find_to_close(t, i + 1);
    }
}

} // verus!

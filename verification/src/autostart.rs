//! Per-user autostart. On macOS a LaunchAgent property list starts the
//! daemon at login; this module renders that file. On other Unix systems
//! autostart is not supported.

use vstd::prelude::*;

use crate::strings::push_char;

verus! {

/// The LaunchAgent's label.
pub const LABEL: &'static str = "com.quickshot.daemon";

/// `s` with `&`, `<` and `>` written as XML entities.
pub open spec fn escaped(s: Seq<char>) -> Seq<char>
    decreases s.len(),
{
    if s.len() == 0 {
        Seq::empty()
    } else {
        escaped(s.drop_last()) + escape_char(s.last())
    }
}

pub open spec fn escape_char(c: char) -> Seq<char> {
    if c == '&' {
        seq!['&', 'a', 'm', 'p', ';']
    } else if c == '<' {
        seq!['&', 'l', 't', ';']
    } else if c == '>' {
        seq!['&', 'g', 't', ';']
    } else {
        seq![c]
    }
}

fn push_escaped(out: &mut String, c: char)
    ensures
        final(out)@ == old(out)@ + escape_char(c),
{
    if c == '&' {
        push_char(out, '&');
        push_char(out, 'a');
        push_char(out, 'm');
        push_char(out, 'p');
        push_char(out, ';');
    } else if c == '<' {
        push_char(out, '&');
        push_char(out, 'l');
        push_char(out, 't');
        push_char(out, ';');
    } else if c == '>' {
        push_char(out, '&');
        push_char(out, 'g');
        push_char(out, 't');
        push_char(out, ';');
    } else {
        push_char(out, c);
    }
    assert(out@ =~= old(out)@ + escape_char(c));
}

/// Escape the XML metacharacters `&`, `<` and `>`.
pub fn escape_xml(s: &str) -> (r: String)
    ensures
        r@ == escaped(s@),
{
    let n = s.unicode_len();
    let mut out = String::new();
    let mut i: usize = 0;
    while i < n
        invariant
            n == s@.len(),
            0 <= i <= n,
            out@ == escaped(s@.subrange(0, i as int)),
        decreases n - i,
    {
        let c = s.get_char(i);
        push_escaped(&mut out, c);
        proof {
            assert(s@.subrange(0, i + 1).drop_last() =~= s@.subrange(0, i as int));
        }
        i = i + 1;
    }
    assert(s@.subrange(0, n as int) =~= s@);
    out
}

/// The property list up to the program path.
pub open spec fn plist_head() -> Seq<char> {
    "<?xml version=\"1.0\" encoding=\"UTF-8\"?>\n<!DOCTYPE plist PUBLIC \"-//Apple//DTD PLIST 1.0//EN\" \"http://www.apple.com/DTDs/PropertyList-1.0.dtd\">\n<plist version=\"1.0\">\n<dict>\n    <key>Label</key>\n    <string>com.quickshot.daemon</string>\n    <key>ProgramArguments</key>\n    <array>\n        <string>"@
}

/// The property list after the program path.
pub open spec fn plist_tail() -> Seq<char> {
    "</string>\n    </array>\n    <key>RunAtLoad</key>\n    <true/>\n    <key>KeepAlive</key>\n    <false/>\n    <key>StandardErrorPath</key>\n    <string>/tmp/quickshot.stderr.log</string>\n    <key>StandardOutPath</key>\n    <string>/tmp/quickshot.stdout.log</string>\n</dict>\n</plist>\n"@
}

/// The LaunchAgent property list that runs `bin` at login (not kept alive,
/// output logged under /tmp), with `bin` XML-escaped.
pub fn render_plist(bin: &str) -> (r: String)
    ensures
        r@ == plist_head() + escaped(bin@) + plist_tail(),
{
    let mut out = String::from_str("<?xml version=\"1.0\" encoding=\"UTF-8\"?>\n<!DOCTYPE plist PUBLIC \"-//Apple//DTD PLIST 1.0//EN\" \"http://www.apple.com/DTDs/PropertyList-1.0.dtd\">\n<plist version=\"1.0\">\n<dict>\n    <key>Label</key>\n    <string>com.quickshot.daemon</string>\n    <key>ProgramArguments</key>\n    <array>\n        <string>");
    let escaped_bin = escape_xml(bin);
    out.append(escaped_bin.as_str());
    out.append("</string>\n    </array>\n    <key>RunAtLoad</key>\n    <true/>\n    <key>KeepAlive</key>\n    <false/>\n    <key>StandardErrorPath</key>\n    <string>/tmp/quickshot.stderr.log</string>\n    <key>StandardOutPath</key>\n    <string>/tmp/quickshot.stdout.log</string>\n</dict>\n</plist>\n");
    out
}

/// `t` occurs in `s`.
pub open spec fn has_text(s: Seq<char>, t: Seq<char>) -> bool {
    exists|i: int| 0 <= i && i + t.len() <= s.len() && #[trigger] s.subrange(i, i + t.len()) == t
}

/// Whatever the program path, the rendered property list starts the daemon
/// at login and does not keep it alive (so Quit stays quit), and no `<`
/// from the path can open an element.
pub proof fn lemma_plist_runs_at_login(bin: Seq<char>)
    ensures
        has_text(plist_head() + escaped(bin) + plist_tail(), "<key>RunAtLoad</key>\n    <true/>"@),
        has_text(plist_head() + escaped(bin) + plist_tail(), "<key>KeepAlive</key>\n    <false/>"@),
        !escaped(bin).contains('<'),
{
    reveal_strlit("</string>\n    </array>\n    <key>RunAtLoad</key>\n    <true/>\n    <key>KeepAlive</key>\n    <false/>\n    <key>StandardErrorPath</key>\n    <string>/tmp/quickshot.stderr.log</string>\n    <key>StandardOutPath</key>\n    <string>/tmp/quickshot.stdout.log</string>\n</dict>\n</plist>\n");
    reveal_strlit("<key>RunAtLoad</key>\n    <true/>");
    reveal_strlit("<key>KeepAlive</key>\n    <false/>");
    let s = plist_head() + escaped(bin) + plist_tail();
    let base: int = plist_head().len() as int + escaped(bin).len() as int;
    let tail = plist_tail();
    let a = "<key>RunAtLoad</key>\n    <true/>"@;
    let b = "<key>KeepAlive</key>\n    <false/>"@;
    let la: int = a.len() as int;
    let lb: int = b.len() as int;
    assert(tail.subrange(27, 27 + la) =~= a);
    assert(tail.subrange(64, 64 + lb) =~= b);
    assert(s.subrange(base + 27, base + 27 + la) =~= tail.subrange(27, 27 + la));
    assert(s.subrange(base + 64, base + 64 + lb) =~= tail.subrange(64, 64 + lb));
    lemma_escaped_no_lt(bin);
}

proof fn lemma_escaped_no_lt(bin: Seq<char>)
    ensures
        !escaped(bin).contains('<'),
    decreases bin.len(),
{
    if bin.len() > 0 {
        lemma_escaped_no_lt(bin.drop_last());
        let e = escape_char(bin.last());
        assert(!e.contains('<'));
        let whole = escaped(bin.drop_last()) + e;
        if whole.contains('<') {
            let i = choose|i: int| 0 <= i < whole.len() && whole[i] == '<';
            if i < escaped(bin.drop_last()).len() {
                assert(escaped(bin.drop_last())[i] == '<');
            } else {
                assert(e[i - escaped(bin.drop_last()).len()] == '<');
            }
        }
    }
}

/// Why an autostart change failed.
#[derive(Debug, Clone, Copy, PartialEq, Eq, Structural)]
pub enum AutostartError {
    /// This platform has no autostart mechanism the daemon knows.
    Unsupported,
}

impl AutostartError {
    pub fn message(&self) -> (s: &'static str)
        ensures
            s@ == "autostart is not supported on this platform"@,
    {
        "autostart is not supported on this platform"
    }
}

/// Whether autostart is installed, on platforms without an autostart
/// mechanism (neither macOS nor Windows): never.
pub fn is_installed() -> (b: bool)
    ensures
        !b,
{
    false
}

/// Install autostart, on platforms without an autostart mechanism
/// (neither macOS nor Windows): unsupported.
pub fn install() -> (r: Result<(), AutostartError>)
    ensures
        r == Err::<(), AutostartError>(AutostartError::Unsupported),
{
    Err(AutostartError::Unsupported)
}

/// Remove autostart, on platforms without an autostart mechanism
/// (neither macOS nor Windows): unsupported.
pub fn uninstall() -> (r: Result<(), AutostartError>)
    ensures
        r == Err::<(), AutostartError>(AutostartError::Unsupported),
{
    Err(AutostartError::Unsupported)
}

} // verus!

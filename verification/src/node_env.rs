//! `NODE_EXTRA_CA_CERTS` for Node.js processes.
//!
//! Node does not read the macOS keychain, so the app builds a PEM bundle of the
//! system roots plus Caddy's local root and points `NODE_EXTRA_CA_CERTS` at it:
//! through a LaunchAgent for GUI processes and through a managed block in
//! `~/.zshenv` for terminal ones. The block also exports
//! `NODE_OPTIONS=--use-system-ca` once, for Next.js workers that do not inherit
//! the variable. This module computes the texts; the caller reads and writes
//! the files and runs `launchctl`.

use vstd::prelude::*;
use crate::text::{
    chars_of, extend_chars, extend_str, has_char, is_ws, join_lines, join_nl, join_sep,
    lemma_join_nl_append, lemma_join_nl_ended, lemma_join_one, lemma_lines_append,
    lemma_lines_chars, ends_with_cr, lemma_trim_strip_cr, lemma_split_join_nl, lemma_split_nl_no_nl,
    lemma_trim_empty, lemma_trim_first, lemma_trim_unchanged, lines, path_join, path_join_exec,
    split_lines, split_nl, starts_with, starts_with_chars, string_of, strip_cr, trim, trim_chars,
    views, chars_eq, copy_chars,
};

verus! {

pub const LABEL: &'static str = "io.bellboy.node-tls";

pub const ENV_VAR: &'static str = "NODE_EXTRA_CA_CERTS";

/// macOS system CA bundle (public roots, needed for outside HTTPS calls too).
pub const SYSTEM_CA_PATH: &'static str = "/etc/ssl/cert.pem";

pub const LAUNCH_AGENTS_DIR: &'static str = "Library/LaunchAgents";

pub const PLIST_FILE: &'static str = "io.bellboy.node-tls.plist";

pub const CADDY_ROOT_CERT_REL: &'static str =
    "Library/Application Support/Caddy/pki/authorities/local/root.crt";

pub const BUNDLE_FILE: &'static str = "ca-bundle.pem";

pub const ZSHENV_FILE: &'static str = ".zshenv";

pub const ZSHENV_BLOCK_START: &'static str = "# >>> bellboy node-tls (managed — do not edit)";

pub const ZSHENV_BLOCK_END: &'static str = "# <<< bellboy node-tls";

/// Older builds wrote a single comment line and one export instead of a block.
pub const ZSHENV_LEGACY_MARKER: &'static str = "# bellboy:node-tls";

/// The export that followed the legacy marker.
pub const LEGACY_EXPORT_PREFIX: &'static str = "export NODE_EXTRA_CA_CERTS=";

pub const ZSHENV_COMMENT_CA: &'static str =
    "# Node 가 Caddy 로컬 CA 를 신뢰하도록 (로컬 https 도메인 SSR 요청).";

pub const ZSHENV_COMMENT_WORKERS: &'static str =
    "# Next.js dev 의 SSR/렌더 워커는 위 변수를 물려받지 못한다 → system CA(키체인) 사용을 강제한다.";

pub const ZSHENV_COMMENT_GUARD: &'static str =
    "# (--use-system-ca 는 Node 22.15+ 전용이라, 이미 지정돼 있으면 중복 추가하지 않는다)";

pub const ZSHENV_CASE_OPEN: &'static str = "case \":$NODE_OPTIONS:\" in";

pub const ZSHENV_CASE_PRESENT: &'static str = "  *:--use-system-ca:*) ;;";

pub const ZSHENV_CASE_ADD: &'static str =
    "  *) export NODE_OPTIONS=\"${NODE_OPTIONS:+$NODE_OPTIONS }--use-system-ca\" ;;";

pub const ZSHENV_CASE_CLOSE: &'static str = "esac";

pub const BUNDLE_CADDY_HEADER: &'static str = "\n# Caddy local CA (managed by Bellboy)\n";

pub const PLIST_HEAD: &'static str =
    "<?xml version=\"1.0\" encoding=\"UTF-8\"?>\n<!DOCTYPE plist PUBLIC \"-//Apple//DTD PLIST 1.0//EN\" \"http://www.apple.com/DTDs/PropertyList-1.0.dtd\">\n<plist version=\"1.0\">\n<dict>\n    <key>Label</key>\n    <string>io.bellboy.node-tls</string>\n    <key>ProgramArguments</key>\n    <array>\n        <string>/bin/launchctl</string>\n        <string>setenv</string>\n        <string>NODE_EXTRA_CA_CERTS</string>\n        <string>";

pub const PLIST_TAIL: &'static str =
    "</string>\n    </array>\n    <key>RunAtLoad</key>\n    <true/>\n</dict>\n</plist>\n";

// ---------------------------------------------------------------------------
// Paths
// ---------------------------------------------------------------------------

/// `~/Library/LaunchAgents/io.bellboy.node-tls.plist` for the given home.
pub fn plist_path(home: &str) -> (r: String)
    ensures
        r@ == path_join(path_join(home@, LAUNCH_AGENTS_DIR@), PLIST_FILE@),
{
    let dir = path_join_exec(home, LAUNCH_AGENTS_DIR);
    path_join_exec(dir.as_str(), PLIST_FILE)
}

/// Whether the variable is enabled: the home directory is known and the
/// launch-agent file at [`plist_path`] exists.
pub fn is_enabled(home_known: bool, plist_exists: bool) -> (r: bool)
    ensures
        r == (home_known && plist_exists),
{
    home_known && plist_exists
}

/// Where Caddy keeps its local root certificate, for the given home.
pub fn caddy_root_cert_path(home: &str) -> (r: String)
    ensures
        r@ == path_join(home@, CADDY_ROOT_CERT_REL@),
{
    path_join_exec(home, CADDY_ROOT_CERT_REL)
}

/// The combined bundle inside the app directory.
pub fn bundle_path(app_dir: &str) -> (r: String)
    ensures
        r@ == path_join(app_dir@, BUNDLE_FILE@),
{
    path_join_exec(app_dir, BUNDLE_FILE)
}

/// `~/.zshenv` for the given home.
pub fn zshenv_path(home: &str) -> (r: String)
    ensures
        r@ == path_join(home@, ZSHENV_FILE@),
{
    path_join_exec(home, ZSHENV_FILE)
}

// ---------------------------------------------------------------------------
// The CA bundle and the LaunchAgent
// ---------------------------------------------------------------------------

/// The bundle: the system roots (when they could be read), then, when Caddy's
/// root could be read, a header comment and that certificate.
pub open spec fn bundle_text(system_ca: Option<Seq<char>>, caddy_root: Option<Seq<char>>) -> Seq<
    char,
> {
    let sys = match system_ca {
        Some(t) => t,
        None => Seq::empty(),
    };
    match caddy_root {
        Some(c) => sys + BUNDLE_CADDY_HEADER@ + c,
        None => sys,
    }
}

/// Builds the combined CA bundle from the system roots and Caddy's local root;
/// either is `None` when it could not be read.
pub fn bundle_content(system_ca: Option<&str>, caddy_root: Option<&str>) -> (r: String)
    ensures
        r@ == bundle_text(
            match system_ca {
                Some(t) => Some(t@),
                None => None,
            },
            match caddy_root {
                Some(c) => Some(c@),
                None => None,
            },
        ),
{
    let mut out: Vec<char> = Vec::new();
    match system_ca {
        Some(t) => extend_str(&mut out, t),
        None => {},
    }
    match caddy_root {
        Some(c) => {
            extend_str(&mut out, BUNDLE_CADDY_HEADER);
            extend_str(&mut out, c);
        },
        None => {},
    }
    string_of(&out)
}

/// The LaunchAgent that sets `NODE_EXTRA_CA_CERTS` to `bundle_path` at login.
pub fn plist_content(bundle_path: &str) -> (r: String)
    ensures
        r@ == PLIST_HEAD@ + bundle_path@ + PLIST_TAIL@,
{
    let mut out: Vec<char> = Vec::new();
    extend_str(&mut out, PLIST_HEAD);
    extend_str(&mut out, bundle_path);
    extend_str(&mut out, PLIST_TAIL);
    string_of(&out)
}

// ---------------------------------------------------------------------------
// The managed ~/.zshenv block
// ---------------------------------------------------------------------------

/// `export NODE_EXTRA_CA_CERTS="<bundle>"`.
pub open spec fn export_line(bundle: Seq<char>) -> Seq<char> {
    "export "@ + ENV_VAR@ + "=\""@ + bundle + "\""@
}

/// The lines between the block's markers.
pub open spec fn zshenv_inner_lines(bundle: Seq<char>) -> Seq<Seq<char>> {
    seq![
        ZSHENV_COMMENT_CA@,
        export_line(bundle),
        ZSHENV_COMMENT_WORKERS@,
        ZSHENV_COMMENT_GUARD@,
        ZSHENV_CASE_OPEN@,
        ZSHENV_CASE_PRESENT@,
        ZSHENV_CASE_ADD@,
        ZSHENV_CASE_CLOSE@,
    ]
}

/// All lines of the block, markers included.
pub open spec fn zshenv_lines(bundle: Seq<char>) -> Seq<Seq<char>> {
    seq![ZSHENV_BLOCK_START@] + zshenv_inner_lines(bundle) + seq![ZSHENV_BLOCK_END@]
}

/// The block text: its lines joined by `'\n'`, with no final newline.
pub open spec fn zshenv_block_text(bundle: Seq<char>) -> Seq<char> {
    join_sep(zshenv_lines(bundle))
}

/// The managed `~/.zshenv` block: the CA bundle export plus a guarded
/// `NODE_OPTIONS=--use-system-ca`.
pub fn zshenv_block(bundle_str: &str) -> (r: String)
    ensures
        r@ == zshenv_block_text(bundle_str@),
{
    let mut export: Vec<char> = Vec::new();
    extend_str(&mut export, "export ");
    extend_str(&mut export, ENV_VAR);
    extend_str(&mut export, "=\"");
    extend_str(&mut export, bundle_str);
    extend_str(&mut export, "\"");
    let mut ls: Vec<Vec<char>> = Vec::new();
    ls.push(chars_of(ZSHENV_BLOCK_START));
    ls.push(chars_of(ZSHENV_COMMENT_CA));
    ls.push(export);
    ls.push(chars_of(ZSHENV_COMMENT_WORKERS));
    ls.push(chars_of(ZSHENV_COMMENT_GUARD));
    ls.push(chars_of(ZSHENV_CASE_OPEN));
    ls.push(chars_of(ZSHENV_CASE_PRESENT));
    ls.push(chars_of(ZSHENV_CASE_ADD));
    ls.push(chars_of(ZSHENV_CASE_CLOSE));
    ls.push(chars_of(ZSHENV_BLOCK_END));
    assert(views(ls@) =~= zshenv_lines(bundle_str@));
    let joined = join_lines(&ls);
    string_of(&joined)
}

/// Walks the lines of `~/.zshenv` from the given state (inside a managed
/// block; the previous line was the legacy marker): the lines kept, and the
/// state after the last one.
pub open spec fn strip_scan_from(ls: Seq<Seq<char>>, inside: bool, drop_export: bool) -> (
    Seq<Seq<char>>,
    bool,
    bool,
)
    decreases ls.len(),
{
    if ls.len() == 0 {
        (Seq::empty(), inside, drop_export)
    } else {
        let (o, ins, drop) = strip_scan_from(ls.drop_last(), inside, drop_export);
        let l = ls.last();
        let t = trim(l);
        if t == ZSHENV_BLOCK_START@ {
            (o, true, drop)
        } else if t == ZSHENV_BLOCK_END@ {
            (o, false, drop)
        } else if ins {
            (o, true, drop)
        } else if t == ZSHENV_LEGACY_MARKER@ {
            (o, false, true)
        } else if drop && starts_with(t, LEGACY_EXPORT_PREFIX@) {
            (o, false, false)
        } else {
            (o.push(l), false, false)
        }
    }
}

/// Drops trailing lines that are empty after trimming.
pub open spec fn drop_blank_lines(o: Seq<Seq<char>>) -> Seq<Seq<char>>
    decreases o.len(),
{
    if o.len() > 0 && trim(o.last()).len() == 0 {
        drop_blank_lines(o.drop_last())
    } else {
        o
    }
}

/// The lines of `existing` left once the managed block and the legacy
/// marker-plus-export pair are gone, trailing blank lines dropped.
pub open spec fn unmanaged_zshenv_lines(existing: Seq<char>) -> Seq<Seq<char>> {
    drop_blank_lines(strip_scan_from(lines(existing), false, false).0)
}

/// `existing` without Perch's managed region, as `'\n'`-joined lines.
pub open spec fn stripped(existing: Seq<char>) -> Seq<char> {
    join_sep(unmanaged_zshenv_lines(existing))
}

/// Removes the managed region (both the current START/END block and the
/// legacy single-line `# bellboy:node-tls` marker with its export), leaving
/// the rest intact.
pub fn strip_managed(existing: &str) -> (r: String)
    ensures
        r@ == stripped(existing@),
{
    let cur = chars_of(existing);
    let ls = split_lines(&cur);
    let start = chars_of(ZSHENV_BLOCK_START);
    let end = chars_of(ZSHENV_BLOCK_END);
    let legacy = chars_of(ZSHENV_LEGACY_MARKER);
    let export_prefix = chars_of(LEGACY_EXPORT_PREFIX);
    let mut out: Vec<Vec<char>> = Vec::new();
    let mut inside = false;
    let mut drop_next_export = false;
    let mut i: usize = 0;
    while i < ls.len()
        invariant
            i <= ls.len(),
            views(ls@) == lines(existing@),
            start@ == ZSHENV_BLOCK_START@,
            end@ == ZSHENV_BLOCK_END@,
            legacy@ == ZSHENV_LEGACY_MARKER@,
            export_prefix@ == LEGACY_EXPORT_PREFIX@,
            views(out@) == strip_scan_from(views(ls@).take(i as int), false, false).0,
            inside == strip_scan_from(views(ls@).take(i as int), false, false).1,
            drop_next_export == strip_scan_from(views(ls@).take(i as int), false, false).2,
        decreases ls.len() - i,
    {
        let ghost pre = views(ls@).take(i as int);
        assert(views(ls@).take(i + 1).drop_last() =~= pre);
        assert(views(ls@).take(i + 1).last() == ls@[i as int]@);
        let t = trim_chars(&ls[i]);
        if chars_eq(&t, &start) {
            inside = true;
        } else if chars_eq(&t, &end) {
            inside = false;
        } else if inside {
        } else if chars_eq(&t, &legacy) {
            drop_next_export = true;
        } else if drop_next_export && starts_with_chars(&t, &export_prefix) {
            drop_next_export = false;
        } else {
            drop_next_export = false;
            let ghost before = out@;
            out.push(copy_chars(&ls[i]));
            assert(views(out@) =~= views(before).push(ls@[i as int]@));
        }
        i = i + 1;
    }
    assert(views(ls@).take(ls.len() as int) =~= views(ls@));
    let ghost scanned = views(out@);
    while out.len() > 0 && trim_chars(&out[out.len() - 1]).len() == 0
        invariant
            drop_blank_lines(views(out@)) == drop_blank_lines(scanned),
        decreases out.len(),
    {
        let ghost before = out@;
        out.pop();
        assert(views(out@) =~= views(before).drop_last());
    }
    let joined = join_lines(&out);
    string_of(&joined)
}

/// `~/.zshenv` after adding the block: the stripped text, a blank line when
/// it is not empty, the block, and a final newline.
pub open spec fn with_block_text(existing: Seq<char>, bundle: Seq<char>) -> Seq<char> {
    let s = stripped(existing);
    let s1 = if s.len() > 0 {
        s + seq!['\n', '\n']
    } else {
        s
    };
    s1 + zshenv_block_text(bundle) + seq!['\n']
}

/// `~/.zshenv` after removing the block: the stripped text, newline-ended when
/// it is not empty.
pub open spec fn without_block_text(existing: Seq<char>) -> Seq<char> {
    let s = stripped(existing);
    if s.len() > 0 {
        s.push('\n')
    } else {
        s
    }
}

/// The new `~/.zshenv` text with the managed block for `bundle_str`.
pub fn zshenv_with_block(existing: &str, bundle_str: &str) -> (r: String)
    ensures
        r@ == with_block_text(existing@, bundle_str@),
{
    let s = strip_managed(existing);
    let mut out = chars_of(s.as_str());
    if out.len() > 0 {
        out.push('\n');
        out.push('\n');
    }
    let block = zshenv_block(bundle_str);
    extend_str(&mut out, block.as_str());
    out.push('\n');
    string_of(&out)
}

/// The new `~/.zshenv` text without the managed block.
pub fn zshenv_without_block(existing: &str) -> (r: String)
    ensures
        r@ == without_block_text(existing@),
{
    let s = strip_managed(existing);
    let mut out = chars_of(s.as_str());
    if out.len() > 0 {
        out.push('\n');
    }
    string_of(&out)
}

// ---------------------------------------------------------------------------
// Laws
// ---------------------------------------------------------------------------

/// A line that is neither marker of the block nor the legacy marker.
pub open spec fn zplain(l: Seq<char>) -> bool {
    trim(l) != ZSHENV_BLOCK_START@ && trim(l) != ZSHENV_BLOCK_END@ && trim(l)
        != ZSHENV_LEGACY_MARKER@
}

proof fn lemma_trim_no_char(s: Seq<char>, c: char)
    requires
        !has_char(s, c),
    ensures
        !has_char(trim(s), c),
{
    let t = trim(s);
    crate::text::lemma_lead_from_bounds(s, 0);
    crate::text::lemma_trail_to_bounds(s, s.len() as int);
    if has_char(t, c) {
        let i = choose|i: int| 0 <= i < t.len() && t[i] == c;
        let a = crate::text::lead_from(s, 0);
        assert(a < s.len());
        crate::text::lemma_trail_to_above(s, s.len() as int, a);
        assert(s[a + i] == c);
    }
}

proof fn lemma_zsh_literals()
    ensures
        ZSHENV_BLOCK_START@.len() == 46,
        ZSHENV_BLOCK_END@.len() == 22,
        ZSHENV_LEGACY_MARKER@.len() == 18,
        ZSHENV_BLOCK_START@[0] == '#',
        ZSHENV_BLOCK_END@[0] == '#',
        trim(ZSHENV_BLOCK_START@) == ZSHENV_BLOCK_START@,
        trim(ZSHENV_BLOCK_END@) == ZSHENV_BLOCK_END@,
        !has_char(ZSHENV_BLOCK_START@, '\n'),
        !has_char(ZSHENV_BLOCK_END@, '\n'),
        strip_cr(ZSHENV_BLOCK_START@) == ZSHENV_BLOCK_START@,
        strip_cr(ZSHENV_BLOCK_END@) == ZSHENV_BLOCK_END@,
{
    reveal_strlit("# >>> bellboy node-tls (managed — do not edit)");
    reveal_strlit("# <<< bellboy node-tls");
    reveal_strlit("# bellboy:node-tls");
    lemma_trim_unchanged(ZSHENV_BLOCK_START@);
    lemma_trim_unchanged(ZSHENV_BLOCK_END@);
}

/// A line inside the block is no marker, holds no `'\n'`, and does not end
/// with `'\r'`.
pub open spec fn inner_ok(l: Seq<char>) -> bool {
    trim(l) != ZSHENV_BLOCK_START@ && trim(l) != ZSHENV_BLOCK_END@ && !has_char(l, '\n')
        && strip_cr(l) == l
}

proof fn lemma_comment_ok(c: Seq<char>)
    requires
        c.len() > 0,
        c[0] == '#',
        !is_ws(c.last()),
        c.last() != '\r',
        c.len() != 46,
        c.len() != 22,
        !has_char(c, '\n'),
    ensures
        inner_ok(c),
{
    lemma_zsh_literals();
    lemma_trim_unchanged(c);
}

proof fn lemma_no_hash_ok(c: Seq<char>)
    requires
        c.len() > 0,
        !has_char(c, '#'),
        c.last() != '\r',
        !has_char(c, '\n'),
    ensures
        inner_ok(c),
{
    lemma_zsh_literals();
    lemma_trim_no_char(c, '#');
    if trim(c) == ZSHENV_BLOCK_START@ {
        assert(trim(c)[0] == '#');
    }
    if trim(c) == ZSHENV_BLOCK_END@ {
        assert(trim(c)[0] == '#');
    }
}

proof fn lemma_inner_lines_ok(bundle: Seq<char>)
    requires
        !has_char(bundle, '\n'),
    ensures
        forall|i: int|
            0 <= i < zshenv_inner_lines(bundle).len() ==> inner_ok(
                #[trigger] zshenv_inner_lines(bundle)[i],
            ),
{
    lemma_zsh_literals();
    reveal_strlit("# Node 가 Caddy 로컬 CA 를 신뢰하도록 (로컬 https 도메인 SSR 요청).");
    reveal_strlit(
        "# Next.js dev 의 SSR/렌더 워커는 위 변수를 물려받지 못한다 → system CA(키체인) 사용을 강제한다.",
    );
    reveal_strlit("# (--use-system-ca 는 Node 22.15+ 전용이라, 이미 지정돼 있으면 중복 추가하지 않는다)");
    reveal_strlit("case \":$NODE_OPTIONS:\" in");
    reveal_strlit("  *:--use-system-ca:*) ;;");
    reveal_strlit("  *) export NODE_OPTIONS=\"${NODE_OPTIONS:+$NODE_OPTIONS }--use-system-ca\" ;;");
    reveal_strlit("esac");
    reveal_strlit("export ");
    reveal_strlit("NODE_EXTRA_CA_CERTS");
    reveal_strlit("=\"");
    reveal_strlit("\"");
    lemma_comment_ok(ZSHENV_COMMENT_CA@);
    lemma_comment_ok(ZSHENV_COMMENT_WORKERS@);
    lemma_comment_ok(ZSHENV_COMMENT_GUARD@);
    lemma_no_hash_ok(ZSHENV_CASE_OPEN@);
    lemma_no_hash_ok(ZSHENV_CASE_PRESENT@);
    lemma_no_hash_ok(ZSHENV_CASE_ADD@);
    lemma_no_hash_ok(ZSHENV_CASE_CLOSE@);
    let e = export_line(bundle);
    assert(e[0] == 'e');
    assert(e.last() == '"');
    assert(!has_char(e, '\n')) by {
        if has_char(e, '\n') {
            let i = choose|i: int| 0 <= i < e.len() && e[i] == '\n';
            if 28 <= i < 28 + bundle.len() {
                assert(bundle[i - 28] == '\n');
            }
        }
    }
    lemma_trim_first(e);
    let ls = zshenv_inner_lines(bundle);
    assert(ls[1] == e);
    assert forall|i: int| 0 <= i < ls.len() implies inner_ok(#[trigger] ls[i]) by {
        if i == 1 {
            assert(trim(e)[0] == 'e');
        }
    }
}

proof fn lemma_strip_scan_append(a: Seq<Seq<char>>, b: Seq<Seq<char>>, ins: bool, drop: bool)
    ensures
        ({
            let (ka, ia, da) = strip_scan_from(a, ins, drop);
            let (kb, ib, db) = strip_scan_from(b, ia, da);
            strip_scan_from(a + b, ins, drop) == (ka + kb, ib, db)
        }),
    decreases b.len(),
{
    let (ka, ia, da) = strip_scan_from(a, ins, drop);
    if b.len() == 0 {
        assert(a + b =~= a);
        assert(ka + Seq::<Seq<char>>::empty() =~= ka);
    } else {
        assert((a + b).drop_last() =~= a + b.drop_last());
        assert((a + b).last() == b.last());
        lemma_strip_scan_append(a, b.drop_last(), ins, drop);
        let kb = strip_scan_from(b.drop_last(), ia, da).0;
        assert((ka + kb).push(b.last()) =~= ka + kb.push(b.last()));
    }
}

proof fn lemma_strip_scan_plain(ls: Seq<Seq<char>>)
    requires
        forall|i: int| 0 <= i < ls.len() ==> zplain(#[trigger] ls[i]),
    ensures
        strip_scan_from(ls, false, false) == (ls, false, false),
    decreases ls.len(),
{
    if ls.len() > 0 {
        let init = ls.drop_last();
        assert forall|i: int| 0 <= i < init.len() implies zplain(#[trigger] init[i]) by {
            assert(init[i] == ls[i]);
        }
        lemma_strip_scan_plain(init);
        assert(zplain(ls[ls.len() - 1]));
        assert(init.push(ls.last()) =~= ls);
    }
}

proof fn lemma_strip_scan_inside(ls: Seq<Seq<char>>, drop: bool)
    requires
        forall|i: int| 0 <= i < ls.len() ==> inner_ok(#[trigger] ls[i]),
    ensures
        strip_scan_from(ls, true, drop) == (Seq::<Seq<char>>::empty(), true, drop),
    decreases ls.len(),
{
    if ls.len() > 0 {
        let init = ls.drop_last();
        assert forall|i: int| 0 <= i < init.len() implies inner_ok(#[trigger] init[i]) by {
            assert(init[i] == ls[i]);
        }
        lemma_strip_scan_inside(init, drop);
        assert(inner_ok(ls[ls.len() - 1]));
    }
}

proof fn lemma_strip_scan_kept(ls: Seq<Seq<char>>, q: spec_fn(Seq<char>) -> bool)
    requires
        forall|i: int| 0 <= i < ls.len() ==> q(#[trigger] ls[i]),
    ensures
        forall|j: int|
            0 <= j < strip_scan_from(ls, false, false).0.len() ==> zplain(
                #[trigger] strip_scan_from(ls, false, false).0[j],
            ) && q(strip_scan_from(ls, false, false).0[j]),
    decreases ls.len(),
{
    if ls.len() > 0 {
        let init = ls.drop_last();
        assert forall|i: int| 0 <= i < init.len() implies q(#[trigger] init[i]) by {
            assert(init[i] == ls[i]);
        }
        lemma_strip_scan_kept(init, q);
        assert(q(ls[ls.len() - 1]));
        let (o, ins, drop) = strip_scan_from(init, false, false);
        let o2 = strip_scan_from(ls, false, false).0;
        if o2.len() > o.len() {
            assert(o2 == o.push(ls.last()));
            assert forall|j: int| 0 <= j < o2.len() implies zplain(#[trigger] o2[j]) && q(o2[j]) by {
                if j < o.len() {
                    assert(o2[j] == o[j]);
                }
            }
        }
    }
}

proof fn lemma_drop_blank_lines(o: Seq<Seq<char>>)
    ensures
        drop_blank_lines(o).len() <= o.len(),
        drop_blank_lines(o) == o.take(drop_blank_lines(o).len() as int),
        drop_blank_lines(o).len() == 0 || trim(drop_blank_lines(o).last()).len() > 0,
        drop_blank_lines(drop_blank_lines(o)) == drop_blank_lines(o),
    decreases o.len(),
{
    if o.len() > 0 && trim(o.last()).len() == 0 {
        lemma_drop_blank_lines(o.drop_last());
        let m = drop_blank_lines(o).len() as int;
        assert(o.drop_last().take(m) =~= o.take(m));
    } else {
        assert(o.take(o.len() as int) =~= o);
    }
}

proof fn lemma_join_sep_nl(x: Seq<Seq<char>>)
    requires
        x.len() > 0,
    ensures
        join_sep(x) + seq!['\n'] == join_nl(x),
        join_sep(x) == join_nl(x.drop_last()) + x.last(),
    decreases x.len(),
{
    if x.len() == 1 {
        lemma_join_one(x[0]);
        assert(x =~= seq![x[0]]);
        assert(x.drop_last() =~= Seq::<Seq<char>>::empty());
        assert(join_nl(x.drop_last()) + x.last() =~= x[0]);
    } else {
        lemma_join_sep_nl(x.drop_last());
        assert(join_sep(x) + seq!['\n'] =~= (join_sep(x.drop_last()) + seq!['\n']) + x.last()
            + seq!['\n']);
    }
}

/// Lines without `'\n'`, none but the last ending with `'\r'`, and the last
/// one not empty, read back from their `'\n'`-join unchanged.
proof fn lemma_lines_join_sep(x: Seq<Seq<char>>)
    requires
        forall|i: int| 0 <= i < x.len() ==> !has_char(#[trigger] x[i], '\n'),
        forall|i: int| 0 <= i < x.len() - 1 ==> !ends_with_cr(#[trigger] x[i]),
        x.len() == 0 || x.last().len() > 0,
    ensures
        lines(join_sep(x)) == x,
{
    if x.len() == 0 {
        assert(lines(Seq::<char>::empty()) =~= Seq::<Seq<char>>::empty());
    } else {
        lemma_join_sep_nl(x);
        let init = x.drop_last();
        assert forall|i: int| 0 <= i < init.len() implies !has_char(#[trigger] init[i], '\n')
            && strip_cr(init[i]) == init[i] by {
            assert(init[i] == x[i]);
            assert(!ends_with_cr(x[i]));
        }
        crate::text::lemma_lines_join_nl(init);
        lemma_join_nl_ended(init);
        lemma_lines_append(join_nl(init), x.last());
        assert(!has_char(x[x.len() - 1], '\n'));
        lemma_split_nl_no_nl(x.last());
        assert(lines(x.last()) =~= seq![x.last()]);
        assert(init + seq![x.last()] =~= x);
    }
}

/// Facts about the lines left by stripping.
proof fn lemma_unmanaged(e: Seq<char>)
    ensures
        ({
            let x = unmanaged_zshenv_lines(e);
            &&& forall|i: int| 0 <= i < x.len() ==> zplain(#[trigger] x[i]) && !has_char(x[i], '\n')
            &&& x.len() == 0 || trim(x.last()).len() > 0
            &&& x.len() == 0 || x.last().len() > 0
            &&& drop_blank_lines(x) == x
        }),
{
    let q = |l: Seq<char>| !has_char(l, '\n');
    lemma_lines_chars(e);
    let ls = lines(e);
    assert forall|i: int| 0 <= i < ls.len() implies q(#[trigger] ls[i]) by {}
    lemma_strip_scan_kept(ls, q);
    let o = strip_scan_from(ls, false, false).0;
    lemma_drop_blank_lines(o);
    let x = drop_blank_lines(o);
    assert forall|i: int| 0 <= i < x.len() implies zplain(#[trigger] x[i]) && !has_char(x[i], '\n')
        by {
        assert(x[i] == o[i]);
        assert(q(o[i]));
    }
    if x.len() > 0 && x.last().len() == 0 {
        assert(trim(x.last()) =~= Seq::<char>::empty());
    }
}

/// Stripping a stripped text changes nothing (when no line it keeps, but
/// the last, ends with `'\r'`).
pub proof fn lemma_strip_idempotent(e: Seq<char>)
    requires
        forall|i: int|
            0 <= i < unmanaged_zshenv_lines(e).len() - 1 ==> !ends_with_cr(
                #[trigger] unmanaged_zshenv_lines(e)[i],
            ),
    ensures
        stripped(stripped(e)) == stripped(e),
{
    lemma_unmanaged(e);
    let x = unmanaged_zshenv_lines(e);
    lemma_lines_join_sep(x);
    assert forall|i: int| 0 <= i < x.len() implies zplain(#[trigger] x[i]) by {}
    lemma_strip_scan_plain(x);
}

/// The block, read back line by line, is its start marker, a comment, the
/// `NODE_EXTRA_CA_CERTS` export of the bundle, two comments, then a `case` on
/// `NODE_OPTIONS` whose only arms are the one that does nothing when
/// `--use-system-ca` is already there and the one that exports
/// `NODE_OPTIONS` with `--use-system-ca` added, `esac`, and the end marker
/// (for a bundle path on one line).
pub proof fn lemma_block_lines(bundle: Seq<char>)
    requires
        !has_char(bundle, '\n'),
    ensures
        ({
            let ls = lines(zshenv_block_text(bundle));
            &&& ls.len() == 10
            &&& ls[0] == "# >>> bellboy node-tls (managed — do not edit)"@
            &&& ls[2] == "export NODE_EXTRA_CA_CERTS=\""@ + bundle + "\""@
            &&& ls[5] == "case \":$NODE_OPTIONS:\" in"@
            &&& ls[6] == "  *:--use-system-ca:*) ;;"@
            &&& ls[7] == "  *) export NODE_OPTIONS=\"${NODE_OPTIONS:+$NODE_OPTIONS }--use-system-ca\" ;;"@
            &&& ls[8] == "esac"@
            &&& ls[9] == "# <<< bellboy node-tls"@
        }),
{
    lemma_zsh_literals();
    lemma_inner_lines_ok(bundle);
    let zl = zshenv_lines(bundle);
    let inner = zshenv_inner_lines(bundle);
    assert forall|i: int| 0 <= i < zl.len() implies !has_char(#[trigger] zl[i], '\n') && strip_cr(
        zl[i],
    ) == zl[i] by {
        if 1 <= i < zl.len() - 1 {
            assert(zl[i] == inner[i - 1]);
            assert(inner_ok(inner[i - 1]));
        }
    }
    assert forall|i: int| 0 <= i < zl.len() - 1 implies !ends_with_cr(#[trigger] zl[i]) by {
        assert(strip_cr(zl[i]) == zl[i]);
        if zl[i].len() > 0 && zl[i].last() == '\r' {
            assert(strip_cr(zl[i]).len() == zl[i].len() - 1);
        }
    }
    lemma_lines_join_sep(zl);
    reveal_strlit("export ");
    reveal_strlit("NODE_EXTRA_CA_CERTS");
    reveal_strlit("=\"");
    reveal_strlit("export NODE_EXTRA_CA_CERTS=\"");
    assert("export "@ + ENV_VAR@ + "=\""@ =~= "export NODE_EXTRA_CA_CERTS=\""@);
    assert(zl[2] == export_line(bundle));
    assert(export_line(bundle) =~= "export NODE_EXTRA_CA_CERTS=\""@ + bundle + "\""@);
}

/// Stripping leaves no marker line: no line of the result, as `lines` reads
/// it, is the block's start or end marker or the legacy marker.
pub proof fn lemma_strip_leaves_no_marker(e: Seq<char>)
    ensures
        forall|j: int|
            0 <= j < lines(stripped(e)).len() ==> zplain(#[trigger] lines(stripped(e))[j]),
{
    lemma_unmanaged(e);
    let x = unmanaged_zshenv_lines(e);
    if x.len() == 0 {
        assert(lines(Seq::<char>::empty()) =~= Seq::<Seq<char>>::empty());
    } else {
        lemma_join_sep_nl(x);
        let init = x.drop_last();
        assert forall|i: int| 0 <= i < init.len() implies !has_char(#[trigger] init[i], '\n') by {
            assert(init[i] == x[i]);
        }
        lemma_split_join_nl(init);
        lemma_join_nl_ended(init);
        lemma_lines_append(join_nl(init), x.last());
        assert(!has_char(x[x.len() - 1], '\n'));
        lemma_split_nl_no_nl(x.last());
        assert(lines(x.last()) =~= seq![x.last()]);
        let f = |l: Seq<char>| strip_cr(l);
        assert(lines(join_nl(init)) == init.map_values(f));
        let out = lines(stripped(e));
        assert(out == init.map_values(f) + seq![x.last()]);
        assert forall|j: int| 0 <= j < out.len() implies zplain(#[trigger] out[j]) by {
            if j < init.len() {
                assert(out[j] == strip_cr(x[j]));
                assert(zplain(x[j]));
                lemma_trim_strip_cr(x[j]);
            } else {
                assert(out[j] == x[x.len() - 1]);
            }
        }
    }
}

/// Adding the managed block and stripping again gives back what stripping
/// the original gives (when no line that stripping keeps ends with `'\r'`,
/// and the bundle path holds no `'\n'`).
pub proof fn lemma_strip_after_add(e: Seq<char>, bundle: Seq<char>)
    requires
        forall|i: int|
            0 <= i < unmanaged_zshenv_lines(e).len() ==> !ends_with_cr(
                #[trigger] unmanaged_zshenv_lines(e)[i],
            ),
        !has_char(bundle, '\n'),
    ensures
        stripped(with_block_text(e, bundle)) == stripped(e),
{
    lemma_unmanaged(e);
    lemma_zsh_literals();
    lemma_inner_lines_ok(bundle);
    let x = unmanaged_zshenv_lines(e);
    let zl = zshenv_lines(bundle);
    let inner = zshenv_inner_lines(bundle);
    lemma_join_sep_nl(zl);
    assert(zshenv_block_text(bundle) + seq!['\n'] == join_nl(zl));
    let all = if x.len() > 0 {
        x + seq![Seq::<char>::empty()] + zl
    } else {
        zl
    };
    if x.len() > 0 {
        lemma_join_sep_nl(x);
        lemma_join_one(Seq::<char>::empty());
        lemma_join_nl_append(x, seq![Seq::<char>::empty()]);
        lemma_join_nl_append(x + seq![Seq::<char>::empty()], zl);
        assert(with_block_text(e, bundle) =~= join_nl(all));
    } else {
        assert(with_block_text(e, bundle) =~= join_nl(all));
    }
    assert forall|i: int| 0 <= i < zl.len() implies !has_char(#[trigger] zl[i], '\n') && strip_cr(
        zl[i],
    ) == zl[i] by {
        if 1 <= i < zl.len() - 1 {
            assert(zl[i] == inner[i - 1]);
            assert(inner_ok(inner[i - 1]));
        }
    }
    assert(!has_char(Seq::<char>::empty(), '\n'));
    assert forall|i: int| 0 <= i < all.len() implies !has_char(#[trigger] all[i], '\n') && strip_cr(
        all[i],
    ) == all[i] by {
        if x.len() > 0 {
            if i < x.len() {
                assert(all[i] == x[i]);
                assert(!ends_with_cr(x[i]));
            } else if i == x.len() {
                assert(all[i] == Seq::<char>::empty());
            } else {
                assert(all[i] == zl[i - x.len() - 1]);
            }
        }
    }
    crate::text::lemma_lines_join_nl(all);
    assert(lines(with_block_text(e, bundle)) == all);
    // the block's lines are dropped
    let head = seq![ZSHENV_BLOCK_START@];
    assert(head.drop_last() =~= Seq::<Seq<char>>::empty());
    assert(strip_scan_from(Seq::<Seq<char>>::empty(), false, false) == (
        Seq::<Seq<char>>::empty(),
        false,
        false,
    ));
    assert(head.last() == ZSHENV_BLOCK_START@);
    assert(strip_scan_from(head, false, false) == (Seq::<Seq<char>>::empty(), true, false));
    lemma_strip_scan_inside(inner, false);
    let tail = seq![ZSHENV_BLOCK_END@];
    assert(tail.drop_last() =~= Seq::<Seq<char>>::empty());
    assert(strip_scan_from(Seq::<Seq<char>>::empty(), true, false) == (
        Seq::<Seq<char>>::empty(),
        true,
        false,
    ));
    assert(tail.last() == ZSHENV_BLOCK_END@);
    assert(strip_scan_from(tail, true, false) == (Seq::<Seq<char>>::empty(), false, false));
    lemma_strip_scan_append(head, inner, false, false);
    lemma_strip_scan_append(head + inner, tail, false, false);
    assert(head + inner + tail =~= zl);
    assert(strip_scan_from(zl, false, false) == (Seq::<Seq<char>>::empty(), false, false));
    if x.len() > 0 {
        assert forall|i: int| 0 <= i < x.len() implies zplain(#[trigger] x[i]) by {}
        lemma_strip_scan_plain(x);
        let blank = seq![Seq::<char>::empty()];
        assert(blank.drop_last() =~= Seq::<Seq<char>>::empty());
        assert(trim(Seq::<char>::empty()) =~= Seq::<char>::empty());
        assert(strip_scan_from(blank, false, false) == (blank, false, false));
        lemma_strip_scan_append(x, blank, false, false);
        lemma_strip_scan_append(x + blank, zl, false, false);
        let o = x + blank;
        assert(o =~= x.push(Seq::<char>::empty()));
        assert(strip_scan_from(all, false, false).0 =~= o);
        assert(o.drop_last() =~= x);
        assert(drop_blank_lines(o) == drop_blank_lines(x));
    } else {
        assert(drop_blank_lines(Seq::<Seq<char>>::empty()) == Seq::<Seq<char>>::empty());
    }
}

/// Adding the block to a text that already holds one replaces it: the block
/// is never added twice (when no line that stripping keeps ends with `'\r'`,
/// and the first bundle path holds no `'\n'`).
pub proof fn lemma_add_replaces(e: Seq<char>, b1: Seq<char>, b2: Seq<char>)
    requires
        forall|i: int|
            0 <= i < unmanaged_zshenv_lines(e).len() ==> !ends_with_cr(
                #[trigger] unmanaged_zshenv_lines(e)[i],
            ),
        !has_char(b1, '\n'),
    ensures
        with_block_text(with_block_text(e, b1), b2) == with_block_text(e, b2),
{
    lemma_strip_after_add(e, b1);
}

/// Removing the block after adding it leaves what removing it from the
/// original leaves (when no line that stripping keeps ends with `'\r'`, and
/// the bundle path holds no `'\n'`).
pub proof fn lemma_remove_after_add(e: Seq<char>, bundle: Seq<char>)
    requires
        forall|i: int|
            0 <= i < unmanaged_zshenv_lines(e).len() ==> !ends_with_cr(
                #[trigger] unmanaged_zshenv_lines(e)[i],
            ),
        !has_char(bundle, '\n'),
    ensures
        without_block_text(with_block_text(e, bundle)) == without_block_text(e),
{
    lemma_strip_after_add(e, bundle);
}

} // verus!

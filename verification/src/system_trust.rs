//! Trust in Caddy's local root CA through the macOS System keychain.
//!
//! Caddy's `tls internal` issues certificates from a local root; browsers
//! trust them once that root is in the System keychain. The caller checks the
//! file and runs `security`; this module decides the status shown to the user
//! and builds the AppleScript that adds the root.

use vstd::prelude::*;
use vstd::string::*;
use crate::text::{chars_of, contains, contains_chars, extend_str, path_join, path_join_exec, string_of};

verus! {

pub const CADDY_DIR: &'static str = "Library/Application Support/Caddy";

pub const ROOT_CRT_REL: &'static str = "pki/authorities/local/root.crt";

pub const SYSTEM_KEYCHAIN: &'static str = "/Library/Keychains/System.keychain";

pub const HOME_NOT_SET: &'static str = "HOME not set";

pub const TRUSTED_MESSAGE: &'static str =
    "Caddy 로컬 CA가 macOS 시스템 신뢰 저장소에 등록되어 있습니다.";

pub const UNTRUSTED_MESSAGE: &'static str =
    "Caddy 로컬 CA가 아직 macOS 시스템 신뢰 저장소에 등록되어 있지 않습니다.";

pub const ROOT_MISSING_MESSAGE: &'static str =
    "Caddy 로컬 CA 파일이 아직 없습니다. Caddy를 한 번 시작하면 생성됩니다.";

pub const NODE_SYSTEM_CA_HINT: &'static str =
    "Node 22.19+/24.6+에서는 NODE_USE_SYSTEM_CA=1, Node 23.8+에서는 --use-system-ca로 macOS 신뢰 저장소를 사용할 수 있습니다. Node 20은 기본적으로 macOS Keychain을 보지 않아 별도 설정이 필요할 수 있습니다.";

pub const ADD_CERT_SCRIPT_HEAD: &'static str =
    "do shell script \"/usr/bin/security add-trusted-cert -d -r trustRoot -p ssl -k /Library/Keychains/System.keychain \" & quoted form of \"";

pub const ADD_CERT_SCRIPT_TAIL: &'static str = "\" with administrator privileges";

pub const ADD_CERT_FAILED_PREFIX: &'static str = "security add-trusted-cert failed: ";

/// Whether Caddy's local root is trusted for SSL.
#[derive(Debug, Clone, Copy, PartialEq, Eq)]
pub enum CertificateTrustState {
    Trusted,
    Untrusted,
    RootMissing,
}

/// What the UI shows about the local root.
#[derive(Debug, Clone)]
pub struct CertificateTrustStatus {
    pub state: CertificateTrustState,
    pub root_path: Option<String>,
    pub message: String,
    pub node_hint: String,
}

/// A status as plain values.
pub open spec fn status_view(s: CertificateTrustStatus) -> (
    CertificateTrustState,
    Option<Seq<char>>,
    Seq<char>,
    Seq<char>,
) {
    (
        s.state,
        match s.root_path {
            Some(p) => Some(p@),
            None => None,
        },
        s.message@,
        s.node_hint@,
    )
}

/// `<home>/Library/Application Support/Caddy/pki/authorities/local/root.crt`.
pub open spec fn root_crt_path_text(home: Seq<char>) -> Seq<char> {
    path_join(path_join(home, CADDY_DIR@), ROOT_CRT_REL@)
}

/// Where Caddy keeps its local root for the given home directory.
pub fn root_crt_path_from_home(home: &str) -> (r: String)
    ensures
        r@ == root_crt_path_text(home@),
{
    let dir = path_join_exec(home, CADDY_DIR);
    path_join_exec(dir.as_str(), ROOT_CRT_REL)
}

/// The hint on making Node use the macOS trust store.
pub fn node_system_ca_hint() -> (r: String)
    ensures
        r@ == NODE_SYSTEM_CA_HINT@,
{
    String::from_str(NODE_SYSTEM_CA_HINT)
}

/// The status for a root file at `root` (whether it exists, and whether
/// `security verify-cert` accepts it for SSL).
pub open spec fn status_text(root: Seq<char>, exists: bool, trusted: bool) -> (
    CertificateTrustState,
    Option<Seq<char>>,
    Seq<char>,
    Seq<char>,
) {
    if !exists {
        (
            CertificateTrustState::RootMissing,
            Some(root),
            ROOT_MISSING_MESSAGE@,
            NODE_SYSTEM_CA_HINT@,
        )
    } else if trusted {
        (CertificateTrustState::Trusted, Some(root), TRUSTED_MESSAGE@, NODE_SYSTEM_CA_HINT@)
    } else {
        (CertificateTrustState::Untrusted, Some(root), UNTRUSTED_MESSAGE@, NODE_SYSTEM_CA_HINT@)
    }
}

/// The status when the root file does not exist yet.
pub fn root_missing_status(root: &str) -> (r: CertificateTrustStatus)
    ensures
        status_view(r) == status_text(root@, false, false),
{
    CertificateTrustStatus {
        state: CertificateTrustState::RootMissing,
        root_path: Some(String::from_str(root)),
        message: String::from_str(ROOT_MISSING_MESSAGE),
        node_hint: node_system_ca_hint(),
    }
}

/// The status for the root file at `root`; `trusted` is only read when the
/// file exists.
pub fn status_for_root_path(root: &str, exists: bool, trusted: bool) -> (r: CertificateTrustStatus)
    ensures
        status_view(r) == status_text(root@, exists, trusted),
{
    if !exists {
        return root_missing_status(root);
    }
    if trusted {
        CertificateTrustStatus {
            state: CertificateTrustState::Trusted,
            root_path: Some(String::from_str(root)),
            message: String::from_str(TRUSTED_MESSAGE),
            node_hint: node_system_ca_hint(),
        }
    } else {
        CertificateTrustStatus {
            state: CertificateTrustState::Untrusted,
            root_path: Some(String::from_str(root)),
            message: String::from_str(UNTRUSTED_MESSAGE),
            node_hint: node_system_ca_hint(),
        }
    }
}

/// The trust status of Caddy's local root for the home directory `home`
/// (`None` when `HOME` is not set), given whether the root file exists and
/// whether it is trusted for SSL.
pub fn status(home: Option<&str>, root_exists: bool, trusted: bool) -> (r: Result<
    CertificateTrustStatus,
    String,
>)
    ensures
        match home {
            None => r matches Err(e) && e@ == HOME_NOT_SET@,
            Some(h) => r matches Ok(s) && status_view(s) == status_text(
                root_crt_path_text(h@),
                root_exists,
                trusted,
            ),
        },
{
    match home {
        None => Err(String::from_str(HOME_NOT_SET)),
        Some(h) => {
            let root = root_crt_path_from_home(h);
            Ok(status_for_root_path(root.as_str(), root_exists, trusted))
        },
    }
}

/// After trying to add the root to the System keychain: no home is an error;
/// a missing root gives the missing status without any attempt; a failed
/// attempt gives its error; otherwise the status observed afterwards.
pub fn trust_caddy_root(
    home: Option<&str>,
    root_exists: bool,
    add_outcome: Result<(), String>,
    exists_after: bool,
    trusted_after: bool,
) -> (r: Result<CertificateTrustStatus, String>)
    ensures
        match home {
            None => r matches Err(e) && e@ == HOME_NOT_SET@,
            Some(h) => if !root_exists {
                r matches Ok(s) && status_view(s) == status_text(
                    root_crt_path_text(h@),
                    false,
                    false,
                )
            } else {
                match add_outcome {
                    Err(e) => r matches Err(e2) && e2@ == e@,
                    Ok(()) => r matches Ok(s) && status_view(s) == status_text(
                        root_crt_path_text(h@),
                        exists_after,
                        trusted_after,
                    ),
                }
            },
        },
{
    match home {
        None => Err(String::from_str(HOME_NOT_SET)),
        Some(h) => {
            let root = root_crt_path_from_home(h);
            if !root_exists {
                return Ok(root_missing_status(root.as_str()));
            }
            match add_outcome {
                Err(e) => Err(e),
                Ok(()) => Ok(status_for_root_path(root.as_str(), exists_after, trusted_after)),
            }
        },
    }
}

/// AppleScript string escaping: `'\\'` and `'"'` get a backslash.
pub open spec fn escape_text(s: Seq<char>) -> Seq<char>
    decreases s.len(),
{
    if s.len() == 0 {
        Seq::empty()
    } else {
        let c = s.last();
        escape_text(s.drop_last()) + if c == '\\' {
            seq!['\\', '\\']
        } else if c == '"' {
            seq!['\\', '"']
        } else {
            seq![c]
        }
    }
}

/// Escapes a value for an AppleScript string literal.
pub fn escape_applescript_string(value: &str) -> (r: String)
    ensures
        r@ == escape_text(value@),
{
    let v = chars_of(value);
    let mut out: Vec<char> = Vec::new();
    let mut i: usize = 0;
    while i < v.len()
        invariant
            i <= v.len(),
            out@ == escape_text(v@.take(i as int)),
        decreases v.len() - i,
    {
        assert(v@.take(i + 1).drop_last() =~= v@.take(i as int));
        assert(v@.take(i + 1).last() == v@[i as int]);
        let c = v[i];
        if c == '\\' {
            out.push('\\');
            out.push('\\');
        } else if c == '"' {
            out.push('\\');
            out.push('"');
        } else {
            out.push(c);
        }
        i = i + 1;
    }
    assert(v@.take(v.len() as int) =~= v@);
    string_of(&out)
}

/// The value of the body of an AppleScript string literal that uses no
/// escapes but `\\` and `\"`: a backslash stands for the character after
/// it. `None` when a bare `'"'` would end the literal early, or a backslash
/// is last or starts another escape.
pub open spec fn literal_value(t: Seq<char>) -> Option<Seq<char>>
    decreases t.len(),
{
    if t.len() == 0 {
        Some(Seq::empty())
    } else if t[0] == '\\' {
        if t.len() >= 2 && (t[1] == '\\' || t[1] == '"') {
            match literal_value(t.skip(2)) {
                Some(v) => Some(seq![t[1]] + v),
                None => None,
            }
        } else {
            None
        }
    } else if t[0] == '"' {
        None
    } else {
        match literal_value(t.skip(1)) {
            Some(v) => Some(seq![t[0]] + v),
            None => None,
        }
    }
}

proof fn lemma_escape_append(a: Seq<char>, b: Seq<char>)
    ensures
        escape_text(a + b) == escape_text(a) + escape_text(b),
    decreases b.len(),
{
    if b.len() == 0 {
        assert(a + b =~= a);
        assert(escape_text(a) + escape_text(b) =~= escape_text(a));
    } else {
        lemma_escape_append(a, b.drop_last());
        assert((a + b).drop_last() =~= a + b.drop_last());
        assert((a + b).last() == b.last());
    }
}

/// Escaping is undone by reading the literal back: inside the double quotes
/// of the script, any path stays one string, the same path.
pub proof fn lemma_escape_round_trip(s: Seq<char>)
    ensures
        literal_value(escape_text(s)) == Some(s),
    decreases s.len(),
{
    if s.len() > 0 {
        let c = s[0];
        let rest = s.skip(1);
        assert(s =~= seq![c] + rest);
        lemma_escape_append(seq![c], rest);
        let one = seq![c];
        assert(one.drop_last() =~= Seq::<char>::empty());
        assert(escape_text(Seq::<char>::empty()) =~= Seq::<char>::empty());
        assert(one.last() == c);
        assert(escape_text(one) =~= if c == '\\' {
            seq!['\\', '\\']
        } else if c == '"' {
            seq!['\\', '"']
        } else {
            seq![c]
        });
        lemma_escape_round_trip(rest);
        let e = escape_text(s);
        let er = escape_text(rest);
        if c == '\\' || c == '"' {
            assert(e =~= seq!['\\', c] + er);
            assert(e.skip(2) =~= er);
            assert(seq![e[1]] + rest =~= s);
        } else {
            assert(e =~= seq![c] + er);
            assert(e.skip(1) =~= er);
            assert(seq![e[0]] + rest =~= s);
        }
    }
}

/// The AppleScript that adds the root at `root` to the System keychain as
/// trusted for SSL, with an administrator prompt.
pub fn add_trusted_cert_applescript(root: &str) -> (r: String)
    ensures
        r@ == ADD_CERT_SCRIPT_HEAD@ + escape_text(root@) + ADD_CERT_SCRIPT_TAIL@,
{
    let mut out: Vec<char> = Vec::new();
    extend_str(&mut out, ADD_CERT_SCRIPT_HEAD);
    let esc = escape_applescript_string(root);
    extend_str(&mut out, esc.as_str());
    extend_str(&mut out, ADD_CERT_SCRIPT_TAIL);
    string_of(&out)
}

/// `osascript` reports that the user cancelled the prompt.
pub open spec fn user_cancelled(stderr: Seq<char>) -> bool {
    contains(stderr, "User canceled"@) || contains(stderr, "-128"@)
}

/// Whether `osascript`'s error output says the user cancelled.
pub fn is_user_cancelled(stderr: &str) -> (r: bool)
    ensures
        r == user_cancelled(stderr@),
{
    let s = chars_of(stderr);
    let a = chars_of("User canceled");
    let b = chars_of("-128");
    contains_chars(&s, &a) || contains_chars(&s, &b)
}

} // verus!

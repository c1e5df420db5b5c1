//! Whether Caddy and Homebrew are installed, and what a `brew install caddy`
//! run came to. Installing Homebrew itself is out of scope. The caller looks
//! at the disk and runs `brew`.

use vstd::prelude::*;
use vstd::string::*;
use crate::caddy_process::{candidate_paths, binary_candidates, first_present, resolve_binary};
use crate::text::{chars_of, extend_chars, extend_str, str_views, string_of, trim, trim_chars};

verus! {

/// Homebrew locations that GUI launches leave out of `PATH`.
pub const BREW_FALLBACK_ARM: &'static str = "/opt/homebrew/bin/brew";

pub const BREW_FALLBACK_INTEL: &'static str = "/usr/local/bin/brew";

pub const BREW_NAME: &'static str = "brew";

/// Bytes of `brew`'s error output kept in a failure message.
pub const STDERR_TAIL_BYTES: usize = 800;

pub const BREW_MISSING_MESSAGE: &'static str =
    "Homebrew가 설치되어 있지 않습니다. https://brew.sh 에서 먼저 설치하세요.";

pub const INSTALL_FAILED_PREFIX: &'static str = "caddy 설치 실패:\n";

pub const ELLIPSIS: &'static str = "…";

/// The snapshot the UI needs to draw the dependency banner.
#[derive(Debug, Clone)]
pub struct DependencyStatus {
    /// Whether the Caddy binary exists.
    pub caddy_installed: bool,
    /// Where it was found.
    pub caddy_path: Option<String>,
    /// Whether Homebrew is installed (automatic install possible).
    pub homebrew_installed: bool,
}

/// The dependency snapshot from where `caddy` and `brew` were found.
pub fn status(caddy: Option<String>, brew: Option<String>) -> (r: DependencyStatus)
    ensures
        r.caddy_installed == caddy.is_some(),
        match caddy {
            Some(p) => r.caddy_path matches Some(q) && q@ == p@,
            None => r.caddy_path.is_none(),
        },
        r.homebrew_installed == brew.is_some(),
{
    let caddy_installed = caddy.is_some();
    let homebrew_installed = brew.is_some();
    DependencyStatus { caddy_installed, caddy_path: caddy, homebrew_installed }
}

/// Where `brew` is looked for: `PATH`, then the Homebrew prefixes.
pub fn brew_candidates(path_var: Option<&str>) -> (r: Vec<String>)
    ensures
        str_views(r@) == candidate_paths(
            match path_var {
                Some(p) => Some(p@),
                None => None,
            },
            BREW_NAME@,
            seq![BREW_FALLBACK_ARM@, BREW_FALLBACK_INTEL@],
        ),
{
    let mut fb: Vec<&str> = Vec::new();
    fb.push(BREW_FALLBACK_ARM);
    fb.push(BREW_FALLBACK_INTEL);
    assert(fb@.map_values(|f: &str| f@) =~= seq![BREW_FALLBACK_ARM@, BREW_FALLBACK_INTEL@]);
    binary_candidates(path_var, BREW_NAME, &fb)
}

/// The `brew` binary: the first of `brew_candidates(path_var)` that
/// `present` marks as an existing file.
pub fn brew_path(path_var: Option<&str>, present: &Vec<bool>) -> (r: Option<String>)
    ensures
        match first_present(
            candidate_paths(
                match path_var {
                    Some(p) => Some(p@),
                    None => None,
                },
                BREW_NAME@,
                seq![BREW_FALLBACK_ARM@, BREW_FALLBACK_INTEL@],
            ),
            present@,
        ) {
            Some(p) => r matches Some(s) && s@ == p,
            None => r.is_none(),
        },
{
    let c = brew_candidates(path_var);
    resolve_binary(&c, present)
}

/// The number of bytes of a character's UTF-8 encoding.
pub open spec fn utf8_len(c: char) -> nat {
    if (c as u32) < 0x80 {
        1
    } else if (c as u32) < 0x800 {
        2
    } else if (c as u32) < 0x10000 {
        3
    } else {
        4
    }
}

/// The length in bytes of the UTF-8 encoding of a text.
pub open spec fn byte_len(s: Seq<char>) -> nat
    decreases s.len(),
{
    if s.len() == 0 {
        0
    } else {
        utf8_len(s[0]) + byte_len(s.drop_first())
    }
}

/// The first character position from `k` on whose suffix fits in `max` bytes.
pub open spec fn first_fit(t: Seq<char>, max: nat, k: int) -> int
    decreases t.len() - k,
{
    if k >= t.len() || byte_len(t.skip(k)) <= max {
        k
    } else {
        first_fit(t, max, k + 1)
    }
}

/// The trimmed text when it fits in `max` bytes; otherwise `…` followed by
/// its longest suffix (cut at a character boundary) that fits.
pub open spec fn tail_text(s: Seq<char>, max: nat) -> Seq<char> {
    let t = trim(s);
    if byte_len(t) <= max {
        t
    } else {
        ELLIPSIS@ + t.skip(first_fit(t, max, 0))
    }
}

proof fn lemma_first_fit(t: Seq<char>, max: nat, k: int)
    requires
        0 <= k <= t.len(),
    ensures
        k <= first_fit(t, max, k) <= t.len(),
        byte_len(t.skip(first_fit(t, max, k))) <= max,
        forall|j: int| k <= j < first_fit(t, max, k) ==> byte_len(#[trigger] t.skip(j)) > max,
    decreases t.len() - k,
{
    if k >= t.len() {
        assert(t.skip(k) =~= Seq::<char>::empty());
    } else if byte_len(t.skip(k)) > max {
        lemma_first_fit(t, max, k + 1);
    }
}

/// When the trimmed text does not fit in `max` bytes, the tail is `…` and a
/// suffix of it that fits, and no longer suffix fits: the cut keeps as much
/// of the end as the byte budget allows.
pub proof fn lemma_tail_longest_fitting_suffix(s: Seq<char>, max: nat)
    ensures
        byte_len(trim(s)) <= max ==> tail_text(s, max) == trim(s),
        byte_len(trim(s)) > max ==> ({
            let t = trim(s);
            let k = first_fit(t, max, 0);
            &&& 0 < k <= t.len()
            &&& tail_text(s, max) == ELLIPSIS@ + t.skip(k)
            &&& byte_len(t.skip(k)) <= max
            &&& forall|j: int| 0 <= j < k ==> byte_len(#[trigger] t.skip(j)) > max
        }),
{
    let t = trim(s);
    lemma_first_fit(t, max, 0);
    if byte_len(t) > max {
        assert(t.skip(0) =~= t);
    }
}

fn utf8_len_exec(c: char) -> (r: u128)
    ensures
        r == utf8_len(c),
{
    let u = c as u32;
    if u < 0x80 {
        1
    } else if u < 0x800 {
        2
    } else if u < 0x10000 {
        3
    } else {
        4
    }
}

/// Keeps about the last `max` bytes of the trimmed text, on a character
/// boundary, with `…` in front when something was cut.
pub fn tail(s: &str, max: usize) -> (r: String)
    ensures
        r@ == tail_text(s@, max as nat),
{
    let v = chars_of(s);
    let t = trim_chars(&v);
    let mut j: usize = t.len();
    let mut total: u128 = 0;
    assert(t@.skip(t.len() as int) =~= Seq::<char>::empty());
    while j > 0
        invariant
            j <= t.len(),
            total == byte_len(t@.skip(j as int)),
            total <= 4 * (t.len() - j),
        decreases j,
    {
        assert(t@.skip(j - 1).drop_first() =~= t@.skip(j as int));
        assert(t@.skip(j - 1)[0] == t@[j - 1]);
        total = total + utf8_len_exec(t[j - 1]);
        j = j - 1;
    }
    assert(t@.skip(0) =~= t@);
    if total <= max as u128 {
        return string_of(&t);
    }
    let mut k: usize = 0;
    let mut rem: u128 = total;
    while rem > max as u128
        invariant
            k <= t.len(),
            rem == byte_len(t@.skip(k as int)),
            first_fit(t@, max as nat, 0) == first_fit(t@, max as nat, k as int),
        decreases t.len() - k,
    {
        if k == t.len() {
            assert(t@.skip(k as int) =~= Seq::<char>::empty());
            assert(false);
        }
        assert(t@.skip(k as int).drop_first() =~= t@.skip(k + 1));
        assert(t@.skip(k as int)[0] == t@[k as int]);
        rem = rem - utf8_len_exec(t[k]);
        k = k + 1;
    }
    let mut out: Vec<char> = Vec::new();
    extend_str(&mut out, ELLIPSIS);
    let mut i: usize = k;
    while i < t.len()
        invariant
            k <= i <= t.len(),
            out@ == ELLIPSIS@ + t@.subrange(k as int, i as int),
        decreases t.len() - i,
    {
        out.push(t[i]);
        i = i + 1;
        assert(out@ =~= ELLIPSIS@ + t@.subrange(k as int, i as int));
    }
    assert(t@.subrange(k as int, t.len() as int) =~= t@.skip(k as int));
    string_of(&out)
}

/// What a `brew install caddy` run came to: success when `brew` succeeded, or
/// when it failed but the Caddy binary is present afterwards (a post-install
/// warning alone); otherwise an error with the tail of `brew`'s error output.
pub fn install_outcome(brew_succeeded: bool, caddy_present: bool, stderr: &str) -> (r: Result<
    (),
    String,
>)
    ensures
        brew_succeeded || caddy_present ==> r is Ok,
        !brew_succeeded && !caddy_present ==> (r matches Err(e) && e@ == INSTALL_FAILED_PREFIX@
            + tail_text(stderr@, STDERR_TAIL_BYTES as nat)),
{
    if brew_succeeded || caddy_present {
        return Ok(());
    }
    let mut out: Vec<char> = Vec::new();
    extend_str(&mut out, INSTALL_FAILED_PREFIX);
    let t = tail(stderr, STDERR_TAIL_BYTES);
    extend_str(&mut out, t.as_str());
    Err(string_of(&out))
}

} // verus!

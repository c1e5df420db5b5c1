//! The Perch-owned block of `/etc/hosts`.
//!
//! The block sits at the bottom of the file between two marker lines; the
//! rest of the file is kept as it is. Reading and writing the file (which
//! needs administrator rights) is left to the caller: this module computes
//! the new file text from the current one.

use vstd::prelude::*;
use crate::text::{
    chars_eq, chars_of, ends_with_cr, extend_chars, extend_str, has_char, is_ws, join_nl, lemma_join_nl_append,
    lemma_join_nl_ended, lemma_join_one, lemma_lines_chars, lemma_split_join_nl,
    lemma_trim_first, lemma_trim_strip_cr, lemma_trim_unchanged, lines, split_lines, str_views, string_of, strip_cr, trim,
    trim_chars, views,
};

verus! {

pub const HOSTS_PATH: &'static str = "/etc/hosts";

pub const MARKER_START: &'static str = "# >>> perch managed (do not edit between markers)";

pub const MARKER_END: &'static str = "# <<< perch managed";

/// Walks the lines from `inside` (whether a block is open at the start):
/// the lines kept outside any managed block, and whether a block is still open.
pub open spec fn scan_from(ls: Seq<Seq<char>>, inside: bool) -> (Seq<Seq<char>>, bool)
    decreases ls.len(),
{
    if ls.len() == 0 {
        (Seq::empty(), inside)
    } else {
        let (k, open) = scan_from(ls.drop_last(), inside);
        let l = ls.last();
        let t = trim(l);
        if t == MARKER_START@ {
            (k, true)
        } else if t == MARKER_END@ {
            (k, false)
        } else if open {
            (k, true)
        } else {
            (k.push(l), false)
        }
    }
}

/// The lines of `current` that lie outside the managed block.
pub open spec fn unmanaged_lines(current: Seq<char>) -> Seq<Seq<char>> {
    scan_from(lines(current), false).0
}

/// Drops trailing `'\n'` characters while the text ends with `"\n\n"`.
pub open spec fn collapse(s: Seq<char>) -> Seq<char>
    decreases s.len(),
{
    if s.len() >= 2 && s.last() == '\n' && s[s.len() - 2] == '\n' {
        collapse(s.drop_last())
    } else {
        s
    }
}

/// One IPv4 and one IPv6 loopback line per domain.
pub open spec fn host_entries(ds: Seq<Seq<char>>) -> Seq<char>
    decreases ds.len(),
{
    if ds.len() == 0 {
        Seq::empty()
    } else {
        host_entries(ds.drop_last()) + "127.0.0.1\t"@ + ds.last() + seq!['\n'] + "::1\t"@
            + ds.last() + seq!['\n']
    }
}

/// The kept part of the file: unmanaged lines, each ended by `'\n'`, with the
/// trailing run of blank lines collapsed.
pub open spec fn kept_text(current: Seq<char>) -> Seq<char> {
    collapse(join_nl(unmanaged_lines(current)))
}

/// The managed block that follows the kept part.
pub open spec fn managed_block(ds: Seq<Seq<char>>) -> Seq<char> {
    seq!['\n'] + MARKER_START@ + seq!['\n'] + host_entries(ds) + MARKER_END@ + seq!['\n']
}

/// The new hosts file: the kept part, then (for a non-empty domain list) a
/// blank line and the managed block mapping each domain to the loopback
/// addresses.
pub open spec fn merged(current: Seq<char>, ds: Seq<Seq<char>>) -> Seq<char> {
    let p = kept_text(current);
    if ds.len() == 0 {
        p
    } else {
        let p1 = if p.len() > 0 && p.last() != '\n' {
            p.push('\n')
        } else {
            p
        };
        p1 + managed_block(ds)
    }
}

/// Rewrites the managed block of a hosts file so that exactly `domains` map to
/// `127.0.0.1` and `::1` inside it; removes the block when `domains` is empty.
pub fn merge_block(current: &str, domains: &[String]) -> (r: String)
    ensures
        r@ == merged(current@, str_views(domains@)),
{
    let cur = chars_of(current);
    let ls = split_lines(&cur);
    let start = chars_of(MARKER_START);
    let end = chars_of(MARKER_END);
    let mut result: Vec<char> = Vec::new();
    let mut inside = false;
    let mut i: usize = 0;
    while i < ls.len()
        invariant
            i <= ls.len(),
            views(ls@) == lines(current@),
            start@ == MARKER_START@,
            end@ == MARKER_END@,
            result@ == join_nl(scan_from(views(ls@).take(i as int), false).0),
            inside == scan_from(views(ls@).take(i as int), false).1,
        decreases ls.len() - i,
    {
        let ghost pre = views(ls@).take(i as int);
        assert(views(ls@).take(i + 1).drop_last() =~= pre);
        assert(views(ls@).take(i + 1).last() == ls@[i as int]@);
        let t = trim_chars(&ls[i]);
        if chars_eq(&t, &start) {
            inside = true;
        } else if chars_eq(&t, &end) {
            inside = false;
        } else if inside {
        } else {
            extend_chars(&mut result, &ls[i]);
            result.push('\n');
            proof {
                let k = scan_from(pre, false).0;
                assert(join_nl(k.push(ls@[i as int]@)) =~= join_nl(k) + ls@[i as int]@ + seq![
                    '\n',
                ]) by {
                    assert(k.push(ls@[i as int]@).drop_last() =~= k);
                }
            }
        }
        i = i + 1;
    }
    assert(views(ls@).take(ls.len() as int) =~= views(ls@));
    let ghost joined = result@;
    while result.len() >= 2 && result[result.len() - 1] == '\n' && result[result.len() - 2] == '\n'
        invariant
            collapse(result@) == collapse(joined),
        decreases result.len(),
    {
        result.pop();
    }
    assert(collapse(result@) == result@);
    if domains.len() > 0 {
        if result.len() > 0 && result[result.len() - 1] != '\n' {
            result.push('\n');
        }
        let ghost p1 = result@;
        result.push('\n');
        extend_chars(&mut result, &start);
        result.push('\n');
        let ghost before = result@;
        let mut j: usize = 0;
        while j < domains.len()
            invariant
                j <= domains.len(),
                end@ == MARKER_END@,
                result@ == before + host_entries(str_views(domains@).take(j as int)),
            decreases domains.len() - j,
        {
            let d = domains[j].as_str();
            extend_str(&mut result, "127.0.0.1\t");
            extend_str(&mut result, d);
            result.push('\n');
            extend_str(&mut result, "::1\t");
            extend_str(&mut result, d);
            result.push('\n');
            proof {
                let ds = str_views(domains@);
                assert(ds.take(j + 1).drop_last() =~= ds.take(j as int));
                assert(ds.take(j + 1).last() == domains@[j as int]@);
            }
            j = j + 1;
        }
        assert(str_views(domains@).take(domains.len() as int) =~= str_views(domains@));
        extend_chars(&mut result, &end);
        result.push('\n');
        assert(result@ =~= p1 + managed_block(str_views(domains@)));
    }
    string_of(&result)
}

/// The new hosts file text when it differs from `current`; `None` when the
/// file already holds exactly the wanted block and nothing must be written.
pub fn sync(current: &str, domains: &[String]) -> (r: Option<String>)
    ensures
        r.is_none() <==> merged(current@, str_views(domains@)) == current@,
        r matches Some(next) ==> next@ == merged(current@, str_views(domains@)),
{
    let next = merge_block(current, domains);
    let a = chars_of(next.as_str());
    let b = chars_of(current);
    if chars_eq(&a, &b) {
        None
    } else {
        Some(next)
    }
}

// ---------------------------------------------------------------------------
// Laws
// ---------------------------------------------------------------------------

/// Drops trailing empty lines, keeping at least one line.
pub open spec fn drop_blank_tail(k: Seq<Seq<char>>) -> Seq<Seq<char>>
    decreases k.len(),
{
    if k.len() >= 2 && k.last().len() == 0 {
        drop_blank_tail(k.drop_last())
    } else {
        k
    }
}

/// The lines of `current` that the new file keeps: those outside the managed
/// block, without the trailing run of empty lines (one line is kept).
pub open spec fn kept_lines(current: Seq<char>) -> Seq<Seq<char>> {
    drop_blank_tail(unmanaged_lines(current))
}

/// The lines of the managed block after its leading blank line.
pub open spec fn entry_lines(ds: Seq<Seq<char>>) -> Seq<Seq<char>>
    decreases ds.len(),
{
    if ds.len() == 0 {
        Seq::empty()
    } else {
        entry_lines(ds.drop_last()) + seq!["127.0.0.1\t"@ + ds.last(), "::1\t"@ + ds.last()]
    }
}

/// A line is neither marker.
pub open spec fn plain(l: Seq<char>) -> bool {
    trim(l) != MARKER_START@ && trim(l) != MARKER_END@
}

proof fn lemma_literals()
    ensures
        MARKER_START@.len() == 49,
        MARKER_END@.len() == 19,
        MARKER_START@[0] == '#',
        MARKER_END@[0] == '#',
        !has_char(MARKER_START@, '\n'),
        !has_char(MARKER_END@, '\n'),
        strip_cr(MARKER_START@) == MARKER_START@,
        strip_cr(MARKER_END@) == MARKER_END@,
        !has_char("127.0.0.1\t"@, '\n'),
        !has_char("::1\t"@, '\n'),
        "127.0.0.1\t"@.len() == 10,
        "127.0.0.1\t"@[0] == '1',
        "::1\t"@.len() == 4,
        "::1\t"@[0] == ':',
{
    reveal_strlit("# >>> perch managed (do not edit between markers)");
    reveal_strlit("# <<< perch managed");
    reveal_strlit("127.0.0.1\t");
    reveal_strlit("::1\t");
}

proof fn lemma_scan_append(a: Seq<Seq<char>>, b: Seq<Seq<char>>, init: bool)
    ensures
        scan_from(a + b, init) == (
            scan_from(a, init).0 + scan_from(b, scan_from(a, init).1).0,
            scan_from(b, scan_from(a, init).1).1,
        ),
    decreases b.len(),
{
    let mid = scan_from(a, init).1;
    if b.len() == 0 {
        assert(a + b =~= a);
        assert(scan_from(a, init).0 + scan_from(b, mid).0 =~= scan_from(a, init).0);
    } else {
        assert((a + b).drop_last() =~= a + b.drop_last());
        assert((a + b).last() == b.last());
        lemma_scan_append(a, b.drop_last(), init);
        let kb = scan_from(b.drop_last(), mid).0;
        assert((scan_from(a, init).0 + kb).push(b.last()) =~= scan_from(a, init).0 + kb.push(
            b.last(),
        ));
    }
}

proof fn lemma_scan_plain(ls: Seq<Seq<char>>)
    requires
        forall|i: int| 0 <= i < ls.len() ==> plain(#[trigger] ls[i]),
    ensures
        scan_from(ls, false) == (ls, false),
        scan_from(ls, true) == (Seq::<Seq<char>>::empty(), true),
    decreases ls.len(),
{
    if ls.len() > 0 {
        let init = ls.drop_last();
        assert forall|i: int| 0 <= i < init.len() implies plain(#[trigger] init[i]) by {
            assert(init[i] == ls[i]);
        }
        lemma_scan_plain(init);
        assert(plain(ls[ls.len() - 1]));
        assert(init.push(ls.last()) =~= ls);
    }
}

/// Every kept line is a plain line of the input that satisfies whatever all
/// input lines satisfy.
proof fn lemma_scan_kept(ls: Seq<Seq<char>>, init: bool, q: spec_fn(Seq<char>) -> bool)
    requires
        forall|i: int| 0 <= i < ls.len() ==> q(#[trigger] ls[i]),
    ensures
        forall|j: int|
            0 <= j < scan_from(ls, init).0.len() ==> plain(#[trigger] scan_from(ls, init).0[j]) && q(
                scan_from(ls, init).0[j],
            ),
    decreases ls.len(),
{
    if ls.len() > 0 {
        let init_ls = ls.drop_last();
        assert forall|i: int| 0 <= i < init_ls.len() implies q(#[trigger] init_ls[i]) by {
            assert(init_ls[i] == ls[i]);
        }
        lemma_scan_kept(init_ls, init, q);
        assert(q(ls[ls.len() - 1]));
        let (k, open) = scan_from(init_ls, init);
        let l = ls.last();
        let t = trim(l);
        if !(t == MARKER_START@) && !(t == MARKER_END@) && !open {
            let k2 = k.push(l);
            assert(scan_from(ls, init).0 == k2);
            assert forall|j: int| 0 <= j < k2.len() implies plain(#[trigger] k2[j]) && q(k2[j]) by {
                if j < k.len() {
                    assert(k2[j] == k[j]);
                }
            }
        }
    }
}

proof fn lemma_collapse_join(k: Seq<Seq<char>>)
    requires
        forall|i: int| 0 <= i < k.len() ==> !has_char(#[trigger] k[i], '\n'),
    ensures
        collapse(join_nl(k)) == join_nl(drop_blank_tail(k)),
    decreases k.len(),
{
    if k.len() > 0 {
        let init = k.drop_last();
        assert forall|i: int| 0 <= i < init.len() implies !has_char(#[trigger] init[i], '\n') by {
            assert(init[i] == k[i]);
        }
        let s = join_nl(k);
        assert(s =~= join_nl(init) + k.last() + seq!['\n']);
        if k.len() >= 2 && k.last().len() == 0 {
            lemma_collapse_join(init);
            lemma_join_nl_ended(init);
            assert(join_nl(init).len() > 0) by {
                assert(join_nl(init) =~= join_nl(init.drop_last()) + init.last() + seq!['\n']);
            }
            assert(s =~= join_nl(init).push('\n'));
            assert(s.drop_last() =~= join_nl(init));
        } else if k.last().len() > 0 {
            assert(!has_char(k[k.len() - 1], '\n'));
            let l = k.last();
            assert(s[s.len() - 2] == l[l.len() - 1]);
        } else {
            assert(s.len() == 1);
        }
    }
}

proof fn lemma_drop_blank_tail(k: Seq<Seq<char>>)
    ensures
        drop_blank_tail(k).len() <= k.len(),
        drop_blank_tail(k) == k.take(drop_blank_tail(k).len() as int),
        k.len() > 0 ==> drop_blank_tail(k).len() > 0,
        drop_blank_tail(drop_blank_tail(k)) == drop_blank_tail(k),
    decreases k.len(),
{
    if k.len() >= 2 && k.last().len() == 0 {
        lemma_drop_blank_tail(k.drop_last());
        let m = drop_blank_tail(k).len() as int;
        assert(k.drop_last().take(m) =~= k.take(m));
    } else {
        assert(k.take(k.len() as int) =~= k);
    }
}

proof fn lemma_entries_join(ds: Seq<Seq<char>>)
    ensures
        host_entries(ds) == join_nl(entry_lines(ds)),
    decreases ds.len(),
{
    if ds.len() > 0 {
        lemma_entries_join(ds.drop_last());
        let d = ds.last();
        let two = seq!["127.0.0.1\t"@ + d, "::1\t"@ + d];
        lemma_join_nl_append(entry_lines(ds.drop_last()), two);
        lemma_join_one("127.0.0.1\t"@ + d);
        assert(two.drop_last() =~= seq!["127.0.0.1\t"@ + d]);
        assert(join_nl(two) =~= join_nl(seq!["127.0.0.1\t"@ + d]) + ("::1\t"@ + d) + seq!['\n']);
        assert(join_nl(two) =~= "127.0.0.1\t"@ + d + seq!['\n'] + "::1\t"@ + d + seq!['\n']);
    }
}

/// No entry line holds `'\n'` when no domain does, and no entry line, with or
/// without a final `'\r'`, is a marker.
proof fn lemma_entry_lines(ds: Seq<Seq<char>>)
    requires
        forall|i: int| 0 <= i < ds.len() ==> !has_char(#[trigger] ds[i], '\n'),
    ensures
        forall|j: int|
            0 <= j < entry_lines(ds).len() ==> !has_char(#[trigger] entry_lines(ds)[j], '\n')
                && plain(strip_cr(entry_lines(ds)[j])),
    decreases ds.len(),
{
    if ds.len() > 0 {
        let init = ds.drop_last();
        assert forall|i: int| 0 <= i < init.len() implies !has_char(#[trigger] init[i], '\n') by {
            assert(init[i] == ds[i]);
        }
        lemma_entry_lines(init);
        lemma_literals();
        let d = ds.last();
        assert(!has_char(ds[ds.len() - 1], '\n'));
        assert forall|p: Seq<char>|
            (p == "127.0.0.1\t"@ || p == "::1\t"@) implies !has_char(#[trigger] (p + d), '\n')
            && plain(strip_cr(p + d)) by {
            let e = p + d;
            if has_char(e, '\n') {
                let i = choose|i: int| 0 <= i < e.len() && e[i] == '\n';
                if i < p.len() {
                    assert(p[i] == '\n');
                } else {
                    assert(d[i - p.len()] == '\n');
                }
            }
            let e2 = strip_cr(e);
            assert(e2.len() > 0 && e2[0] == e[0]);
            assert(!is_ws(e2[0]));
            lemma_trim_first(e2);
        }
        let k = entry_lines(ds);
        assert forall|j: int| 0 <= j < k.len() implies !has_char(#[trigger] k[j], '\n') && plain(
            strip_cr(k[j]),
        ) by {
            if j >= entry_lines(init).len() {
                let off = j - entry_lines(init).len();
                if off == 0 {
                    assert(k[j] == "127.0.0.1\t"@ + d);
                } else {
                    assert(k[j] == "::1\t"@ + d);
                }
            } else {
                assert(k[j] == entry_lines(init)[j]);
            }
        }
    }
}

/// The kept part of the file is its kept lines, each ended by `'\n'`; they
/// are plain and hold no `'\n'`, and read back as themselves less a final
/// `'\r'`.
proof fn lemma_kept_text(c: Seq<char>)
    ensures
        kept_text(c) == join_nl(kept_lines(c)),
        lines(kept_text(c)) == kept_lines(c).map_values(|l: Seq<char>| strip_cr(l)),
        forall|j: int|
            0 <= j < kept_lines(c).len() ==> plain(#[trigger] kept_lines(c)[j]) && !has_char(
                kept_lines(c)[j],
                '\n',
            ),
{
    let q = |l: Seq<char>| !has_char(l, '\n');
    lemma_lines_chars(c);
    let ls = lines(c);
    assert forall|i: int| 0 <= i < ls.len() implies q(#[trigger] ls[i]) by {}
    lemma_scan_kept(ls, false, q);
    let k = unmanaged_lines(c);
    lemma_collapse_join(k);
    lemma_drop_blank_tail(k);
    let x = drop_blank_tail(k);
    assert forall|j: int| 0 <= j < x.len() implies plain(#[trigger] x[j]) && !has_char(x[j], '\n')
        by {
        assert(x[j] == k[j]);
        assert(q(k[j]));
    }
    lemma_split_join_nl(x);
}

/// Merging the result of a merge with a new domain list gives what merging
/// the original file with that list gives: the managed block is replaced and
/// the rest of the file is left as the first merge left it. This holds when
/// no kept line ends with `'\r'`, the first domain list's names hold no
/// `'\n'`, and, when that list is not empty, the file has at least one line
/// outside the managed block.
pub proof fn lemma_merge_replaces_block(c: Seq<char>, d1: Seq<Seq<char>>, d2: Seq<Seq<char>>)
    requires
        forall|j: int| 0 <= j < kept_lines(c).len() ==> !ends_with_cr(#[trigger] kept_lines(c)[j]),
        forall|i: int| 0 <= i < d1.len() ==> !has_char(#[trigger] d1[i], '\n'),
        d1.len() == 0 || unmanaged_lines(c).len() > 0,
    ensures
        merged(merged(c, d1), d2) == merged(c, d2),
{
    lemma_kept_text(c);
    let k = unmanaged_lines(c);
    let x = drop_blank_tail(k);
    lemma_drop_blank_tail(k);
    let p = kept_text(c);
    let m1 = merged(c, d1);
    assert forall|j: int| 0 <= j < x.len() implies strip_cr(#[trigger] x[j]) == x[j] by {
        assert(!ends_with_cr(x[j]));
    }
    assert(x.map_values(|l: Seq<char>| strip_cr(l)) =~= x);
    if d1.len() == 0 {
        lemma_scan_plain(x);
        lemma_collapse_join(x);
        assert(kept_text(m1) == p);
    } else {
        lemma_join_nl_ended(x);
        assert(m1 == p + managed_block(d1));
        lemma_literals();
        lemma_entry_lines(d1);
        lemma_entries_join(d1);
        let el = entry_lines(d1);
        let bl = seq![Seq::<char>::empty(), MARKER_START@] + el + seq![MARKER_END@];
        lemma_join_nl_append(seq![Seq::<char>::empty(), MARKER_START@], el);
        lemma_join_nl_append(seq![Seq::<char>::empty(), MARKER_START@] + el, seq![MARKER_END@]);
        assert(join_nl(seq![Seq::<char>::empty(), MARKER_START@]) =~= seq!['\n'] + MARKER_START@
            + seq!['\n']) by {
            lemma_join_one(Seq::<char>::empty());
            assert(seq![Seq::<char>::empty(), MARKER_START@].drop_last() =~= seq![
                Seq::<char>::empty(),
            ]);
        }
        lemma_join_one(MARKER_END@);
        assert(managed_block(d1) =~= join_nl(bl));
        let all = x + bl;
        lemma_join_nl_append(x, bl);
        assert(m1 == join_nl(all));
        assert forall|i: int| 0 <= i < all.len() implies !has_char(#[trigger] all[i], '\n') by {
            if i < x.len() {
                assert(all[i] == x[i]);
            } else if i == x.len() {
                assert(all[i] == Seq::<char>::empty());
            } else if i == x.len() + 1 {
                assert(all[i] == MARKER_START@);
            } else if i < x.len() + 2 + el.len() {
                assert(all[i] == el[i - x.len() - 2]);
            } else {
                assert(all[i] == MARKER_END@);
            }
        }
        lemma_split_join_nl(all);
        let f = |l: Seq<char>| strip_cr(l);
        let el2 = el.map_values(f);
        assert(all.map_values(f) =~= x + seq![Seq::<char>::empty(), MARKER_START@] + el2 + seq![
            MARKER_END@,
        ]);
        assert(lines(m1) == all.map_values(f));
        assert forall|i: int| 0 <= i < el2.len() implies plain(#[trigger] el2[i]) by {
            assert(el2[i] == strip_cr(el[i]));
        }
        lemma_scan_plain(el2);
        lemma_scan_plain(x);
        let head = seq![Seq::<char>::empty(), MARKER_START@];
        assert(trim(Seq::<char>::empty()) =~= Seq::<char>::empty());
        assert(trim(MARKER_START@) == MARKER_START@) by {
            reveal_strlit("# >>> perch managed (do not edit between markers)");
            lemma_trim_unchanged(MARKER_START@);
        }
        assert(trim(MARKER_END@) == MARKER_END@) by {
            reveal_strlit("# <<< perch managed");
            lemma_trim_unchanged(MARKER_END@);
        }
        assert(head.drop_last() =~= seq![Seq::<char>::empty()]);
        assert(seq![Seq::<char>::empty()].drop_last() =~= Seq::<Seq<char>>::empty());
        let e1 = seq![Seq::<char>::empty()];
        assert(e1.drop_last() =~= Seq::<Seq<char>>::empty());
        assert(e1.last() == Seq::<char>::empty());
        assert(Seq::<Seq<char>>::empty().push(Seq::<char>::empty()) =~= e1);
        assert(scan_from(Seq::<Seq<char>>::empty(), false) == (Seq::<Seq<char>>::empty(), false));
        assert(scan_from(e1, false) == (e1, false));
        assert(head.last() == MARKER_START@);
        assert(scan_from(head, false) == (seq![Seq::<char>::empty()], true));
        let rest = el2 + seq![MARKER_END@];
        assert(rest.drop_last() =~= el2);
        assert(rest.last() == MARKER_END@);
        assert(scan_from(rest, true) == (Seq::<Seq<char>>::empty(), false));
        lemma_scan_append(head, rest, false);
        assert(head + rest =~= seq![Seq::<char>::empty(), MARKER_START@] + el2 + seq![MARKER_END@]);
        lemma_scan_append(x, head + rest, false);
        assert(x + (head + rest) =~= all.map_values(f));
        let kx = x.push(Seq::<char>::empty());
        assert(unmanaged_lines(m1) =~= kx);
        assert forall|i: int| 0 <= i < kx.len() implies !has_char(#[trigger] kx[i], '\n') by {
            if i < x.len() {
                assert(kx[i] == x[i]);
            } else {
                assert(kx[i] == Seq::<char>::empty());
            }
        }
        lemma_collapse_join(kx);
        assert(kx.drop_last() =~= x);
        assert(drop_blank_tail(kx) == drop_blank_tail(x));
        assert(kept_text(m1) == p);
    }
}

/// The lines of the managed block as `lines` reads them back: none for no
/// domains; otherwise a blank line, the start marker, an IPv4 and an IPv6
/// loopback line per domain, and the end marker.
pub open spec fn block_lines(ds: Seq<Seq<char>>) -> Seq<Seq<char>> {
    if ds.len() == 0 {
        Seq::empty()
    } else {
        seq![Seq::<char>::empty(), MARKER_START@] + entry_lines(ds).map_values(
            |l: Seq<char>| strip_cr(l),
        ) + seq![MARKER_END@]
    }
}

/// The new hosts file keeps every line outside the old managed block, in
/// order (a trailing run of empty lines shrinks to one line, and a line
/// still ending with `'\r'` loses it), and then holds exactly the block for
/// the given domains (whose names hold no `'\n'`).
pub proof fn lemma_merge_layout(c: Seq<char>, ds: Seq<Seq<char>>)
    requires
        forall|i: int| 0 <= i < ds.len() ==> !has_char(#[trigger] ds[i], '\n'),
    ensures
        lines(merged(c, ds)) == kept_lines(c).map_values(|l: Seq<char>| strip_cr(l)) + block_lines(
            ds,
        ),
{
    lemma_kept_text(c);
    let k = unmanaged_lines(c);
    let x = drop_blank_tail(k);
    let p = kept_text(c);
    let f = |l: Seq<char>| strip_cr(l);
    if ds.len() == 0 {
        assert(x.map_values(f) + block_lines(ds) =~= x.map_values(f));
    } else {
        lemma_join_nl_ended(x);
        lemma_literals();
        lemma_entry_lines(ds);
        lemma_entries_join(ds);
        let el = entry_lines(ds);
        let bl = seq![Seq::<char>::empty(), MARKER_START@] + el + seq![MARKER_END@];
        lemma_join_nl_append(seq![Seq::<char>::empty(), MARKER_START@], el);
        lemma_join_nl_append(seq![Seq::<char>::empty(), MARKER_START@] + el, seq![MARKER_END@]);
        assert(join_nl(seq![Seq::<char>::empty(), MARKER_START@]) =~= seq!['\n'] + MARKER_START@
            + seq!['\n']) by {
            lemma_join_one(Seq::<char>::empty());
            assert(seq![Seq::<char>::empty(), MARKER_START@].drop_last() =~= seq![
                Seq::<char>::empty(),
            ]);
        }
        lemma_join_one(MARKER_END@);
        assert(managed_block(ds) =~= join_nl(bl));
        let all = x + bl;
        lemma_join_nl_append(x, bl);
        assert(merged(c, ds) == join_nl(all));
        assert forall|i: int| 0 <= i < all.len() implies !has_char(#[trigger] all[i], '\n') by {
            if i < x.len() {
                assert(all[i] == x[i]);
            } else if i == x.len() {
                assert(all[i] == Seq::<char>::empty());
            } else if i == x.len() + 1 {
                assert(all[i] == MARKER_START@);
            } else if i < x.len() + 2 + el.len() {
                assert(all[i] == el[i - x.len() - 2]);
            } else {
                assert(all[i] == MARKER_END@);
            }
        }
        lemma_split_join_nl(all);
        assert(all.map_values(f) =~= x.map_values(f) + block_lines(ds));
    }
}

/// Merging twice with the same domains gives what merging once gives (when
/// no kept line ends with `'\r'`, the domains hold no `'\n'`, and, when
/// domains are given, the file has at least one line outside the managed
/// block).
pub proof fn lemma_merge_idempotent(c: Seq<char>, ds: Seq<Seq<char>>)
    requires
        forall|j: int| 0 <= j < kept_lines(c).len() ==> !ends_with_cr(#[trigger] kept_lines(c)[j]),
        forall|i: int| 0 <= i < ds.len() ==> !has_char(#[trigger] ds[i], '\n'),
        ds.len() == 0 || unmanaged_lines(c).len() > 0,
    ensures
        merged(merged(c, ds), ds) == merged(c, ds),
{
    lemma_merge_replaces_block(c, ds, ds);
}

/// With no domains the result holds no marker line: the block is gone.
pub proof fn lemma_merge_empty_removes_block(c: Seq<char>)
    ensures
        forall|j: int|
            0 <= j < lines(merged(c, Seq::empty())).len() ==> plain(
                #[trigger] lines(merged(c, Seq::empty()))[j],
            ),
{
    lemma_kept_text(c);
    let x = kept_lines(c);
    let out = lines(merged(c, Seq::empty()));
    assert forall|j: int| 0 <= j < out.len() implies plain(#[trigger] out[j]) by {
        assert(out[j] == strip_cr(x[j]));
        assert(plain(x[j]));
        lemma_trim_strip_cr(x[j]);
    }
}

} // verus!

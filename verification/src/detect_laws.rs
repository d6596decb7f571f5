//! What the row scanner guarantees: spans are only ever added, the
//! Privacy-Mode-only markers exist only under Privacy Mode, under Privacy
//! Mode every address candidate whose class is on is masked, an address
//! span is masked exactly when its class is on, switching Privacy Mode
//! changes no cell's colour, every span lies inside its row, a URL span
//! never ends in sentence punctuation, and a URL is carried into the next
//! row only across a soft wrap.
use vstd::prelude::*;
use crate::detect::{
    class_on, detect_from, detect_row, host_user_pass, hl, known_host_pass, known_host_term,
    number_pass, path_pass, spec_detect, term_hit, url_row, url_scan, user_dir_pass, v4_pass,
    v6_pass,
};
use crate::highlight::{
    colours, coloured, covers, first_colour,
    spec_privacy_only, spec_row_text, Highlight, HighlightColor, HighlightKind, PrivacyClasses,
    ScanRow,
};
use crate::scan::{quad_scan, spec_private_v4};
use crate::text::{proj_seq, spec_is_whitespace};

verus! {

/// `res` is `acc` followed by more spans.
pub open spec fn extends(acc: Seq<Highlight>, res: Seq<Highlight>) -> bool {
    acc.len() <= res.len() && forall|k: int| 0 <= k < acc.len() ==> res[k] == acc[k]
}

/// Every span `res` adds after `acc` colours (is not privacy-only).
pub open spec fn adds_colouring(acc: Seq<Highlight>, res: Seq<Highlight>) -> bool {
    extends(acc, res) && forall|k: int|
        acc.len() <= k < res.len() ==> !spec_privacy_only(#[trigger] res[k].kind)
}

/// `res` is `acc` followed by Privacy-Mode markers only.
pub open spec fn adds_markers(acc: Seq<Highlight>, res: Seq<Highlight>) -> bool {
    extends(acc, res) && forall|k: int|
        acc.len() <= k < res.len() ==> spec_privacy_only(#[trigger] res[k].kind)
}

proof fn lemma_push_marker(acc: Seq<Highlight>, h: Highlight)
    requires
        spec_privacy_only(h.kind),
    ensures
        adds_markers(acc, acc.push(h)),
{
}

proof fn lemma_markers_trans(a: Seq<Highlight>, b: Seq<Highlight>, c: Seq<Highlight>)
    requires
        adds_markers(a, b),
        adds_markers(b, c),
    ensures
        adds_markers(a, c),
{
}

proof fn lemma_push_adds(acc: Seq<Highlight>, h: Highlight)
    requires
        !spec_privacy_only(h.kind),
    ensures
        adds_colouring(acc, acc.push(h)),
{
}

proof fn lemma_adds_trans(a: Seq<Highlight>, b: Seq<Highlight>, c: Seq<Highlight>)
    requires
        adds_colouring(a, b),
        adds_colouring(b, c),
    ensures
        adds_colouring(a, c),
{
}

proof fn lemma_extends_trans(a: Seq<Highlight>, b: Seq<Highlight>, c: Seq<Highlight>)
    requires
        extends(a, b),
        extends(b, c),
    ensures
        extends(a, c),
{
}

proof fn lemma_url_scan(
    t: Seq<char>,
    b: Seq<u8>,
    row: u16,
    w: Option<u16>,
    i: int,
    acc: Seq<Highlight>,
    carry: bool,
)
    ensures
        adds_colouring(acc, url_scan(t, b, row, w, i, acc, carry).0),
    decreases t.len() - i,
{
    if 0 <= i < t.len() {
        if crate::detect::url_start(t, i) {
            crate::detect::lemma_url_start_chars(t, i);
            crate::runs::lemma_token_end(t, i);
            let end = crate::runs::token_end(t, i);
            let carries_on = w == Some((end - 1) as u16);
            let cut = if carries_on { end } else { crate::runs::trim_tail(b, end, i) };
            let h = hl(row, i, cut - 1, HighlightColor::Ansi(4), HighlightKind::Url);
            lemma_push_adds(acc, h);
            lemma_url_scan(t, b, row, w, end, acc.push(h), carry || carries_on);
            lemma_adds_trans(acc, acc.push(h), url_scan(t, b, row, w, i, acc, carry).0);
        } else {
            lemma_url_scan(t, b, row, w, i + 1, acc, carry);
        }
    }
}

proof fn lemma_url_row(
    t: Seq<char>,
    b: Seq<u8>,
    row: u16,
    w: Option<u16>,
    claimed: bool,
    acc: Seq<Highlight>,
)
    ensures
        adds_colouring(acc, url_row(t, b, row, w, claimed, acc).0),
{
    if claimed && crate::runs::token_end(t, 0) > 0 {
        let end = crate::runs::token_end(t, 0);
        let carries_on = w == Some((end - 1) as u16);
        let cut = if carries_on { end } else { crate::runs::trim_tail(b, end, 0) };
        if cut == 0 {
            lemma_url_scan(t, b, row, w, end, acc, carries_on);
        } else {
            let h = hl(row, 0, cut - 1, HighlightColor::Ansi(4), HighlightKind::Url);
            lemma_push_adds(acc, h);
            lemma_url_scan(t, b, row, w, end, acc.push(h), carries_on);
            lemma_adds_trans(acc, acc.push(h), url_row(t, b, row, w, claimed, acc).0);
        }
    } else {
        lemma_url_scan(t, b, row, w, 0, acc, false);
    }
}

proof fn lemma_v4(
    t: Seq<char>,
    b: Seq<u8>,
    row: u16,
    cands: Seq<(usize, usize)>,
    k: int,
    acc: Seq<Highlight>,
    privacy: bool,
    terms: Seq<Seq<char>>,
    classes: PrivacyClasses,
)
    ensures
        adds_colouring(acc, v4_pass(t, b, row, cands, k, acc, privacy, terms, classes)),
    decreases cands.len() - k,
{
    if 0 <= k < cands.len() {
        let s = cands[k].0 as int;
        let e = cands[k].1 as int;
        let dominated = crate::highlight::covered(acc, row, s as u16);
        let masked = term_hit(terms, t.subrange(s, e)) || class_on(
            classes,
            spec_private_v4(b.subrange(s, e)),
        );
        if dominated && !(privacy && masked) {
            lemma_v4(t, b, row, cands, k + 1, acc, privacy, terms, classes);
        } else {
            let h = hl(
                row,
                s,
                e - 1,
                HighlightColor::Ansi(5),
                if masked {
                    HighlightKind::Ip
                } else {
                    HighlightKind::VersionQuad
                },
            );
            lemma_push_adds(acc, h);
            lemma_v4(t, b, row, cands, k + 1, acc.push(h), privacy, terms, classes);
            lemma_adds_trans(
                acc,
                acc.push(h),
                v4_pass(t, b, row, cands, k, acc, privacy, terms, classes),
            );
        }
    }
}

proof fn lemma_v6(
    b: Seq<u8>,
    row: u16,
    i: int,
    acc: Seq<Highlight>,
    privacy: bool,
    classes: PrivacyClasses,
)
    ensures
        adds_colouring(acc, v6_pass(b, row, i, acc, privacy, classes)),
    decreases b.len() - i,
{
    if 0 <= i < b.len() {
        if !crate::runs::spec_hexcolon(b[i]) {
            lemma_v6(b, row, i + 1, acc, privacy, classes);
        } else {
            crate::runs::lemma_run_end(b, i, crate::runs::Class::HexColon);
            let j = crate::runs::run_end(b, i, crate::runs::Class::HexColon);
            let glued = (i > 0 && (crate::ascii::spec_is_word_byte(b[i - 1]) || b[i - 1] == 46))
                || (j < b.len() && crate::ascii::spec_is_word_byte(b[j]));
            let s2 = if j - i >= 2 && b[i] == 58 && b[i + 1] != 58 { i + 1 } else { i };
            let e2 = if j - s2 >= 2 && b[j - 1] == 58 && b[j - 2] != 58 { j - 1 } else { j };
            let seg = b.subrange(s2, e2);
            let on = class_on(classes, crate::ipv6::spec_ipv6_local_bytes(seg));
            if !glued && crate::scan::spec_looks_like_ipv6(seg) && (!crate::highlight::coloured(
                acc,
                row,
                s2 as u16,
            ) || (privacy && on)) {
                let h = hl(
                    row,
                    s2,
                    e2 - 1,
                    HighlightColor::Ansi(5),
                    if on {
                        HighlightKind::Ip
                    } else {
                        HighlightKind::VersionQuad
                    },
                );
                lemma_push_adds(acc, h);
                lemma_v6(b, row, j, acc.push(h), privacy, classes);
                lemma_adds_trans(acc, acc.push(h), v6_pass(b, row, i, acc, privacy, classes));
            } else {
                lemma_v6(b, row, j, acc, privacy, classes);
            }
        }
    }
}

proof fn lemma_path(b: Seq<u8>, row: u16, i: int, acc: Seq<Highlight>)
    ensures
        adds_colouring(acc, path_pass(b, row, i, acc)),
    decreases b.len() - i,
{
    if 0 <= i < b.len() {
        if b[i] == 47 && !(i > 0 && crate::detect::path_glue(b[i - 1])) {
            crate::runs::lemma_run_end(b, i + 1, crate::runs::Class::Path);
            let j = crate::runs::run_end(b, i + 1, crate::runs::Class::Path);
            if j - i >= 3 {
                crate::runs::lemma_path_back(b, i, j);
                let j2 = crate::runs::path_back(b, i, j);
                if !crate::highlight::coloured(acc, row, i as u16) && j2 - i >= 3 {
                    let h = hl(row, i, j2 - 1, HighlightColor::Ansi(6), HighlightKind::Path);
                    lemma_push_adds(acc, h);
                    lemma_path(b, row, j2, acc.push(h));
                    lemma_adds_trans(acc, acc.push(h), path_pass(b, row, i, acc));
                } else {
                    lemma_path(b, row, j2, acc);
                }
            } else {
                lemma_path(b, row, i + 1, acc);
            }
        } else {
            lemma_path(b, row, i + 1, acc);
        }
    }
}

proof fn lemma_number(b: Seq<u8>, row: u16, i: int, acc: Seq<Highlight>)
    ensures
        adds_colouring(acc, number_pass(b, row, i, acc)),
    decreases b.len() - i,
{
    if 0 <= i < b.len() {
        if !crate::detect::number_start(b, i) || (i > 0 && crate::ascii::spec_is_digit(b[i])
            && crate::ascii::spec_is_word_byte(b[i - 1])) {
            lemma_number(b, row, i + 1, acc);
        } else {
            crate::detect::lemma_number_end(b, i);
            let j = crate::detect::number_end(b, i);
            if j < b.len() && crate::ascii::spec_is_word_byte(b[j]) {
                lemma_number(b, row, j, acc);
            } else if !crate::highlight::coloured(acc, row, i as u16) {
                let h = hl(row, i, j - 1, HighlightColor::Ansi(5), HighlightKind::Number);
                lemma_push_adds(acc, h);
                lemma_number(b, row, j, acc.push(h));
                lemma_adds_trans(acc, acc.push(h), number_pass(b, row, i, acc));
            } else {
                lemma_number(b, row, j, acc);
            }
        }
    }
}

proof fn lemma_host_user(b: Seq<u8>, row: u16, i: int, acc: Seq<Highlight>)
    ensures
        adds_markers(acc, host_user_pass(b, row, i, acc)),
    decreases b.len() - i,
{
    if 0 <= i < b.len() {
        if b[i] == 64 && i > 0 && i + 1 < b.len() && crate::runs::spec_is_tok(b[i - 1])
            && crate::runs::spec_is_tok(b[i + 1]) {
            crate::runs::lemma_run_end(b, i + 1, crate::runs::Class::Tok);
            let start = crate::runs::tok_left(b, i);
            let end = crate::runs::run_end(b, i + 1, crate::runs::Class::Tok);
            let h = hl(row, start, end - 1, HighlightColor::Ansi(5), HighlightKind::HostUser);
            lemma_push_marker(acc, h);
            lemma_host_user(b, row, end, acc.push(h));
            lemma_markers_trans(acc, acc.push(h), host_user_pass(b, row, i, acc));
        } else {
            lemma_host_user(b, row, i + 1, acc);
        }
    }
}

proof fn lemma_user_dir(b: Seq<u8>, row: u16, i: int, acc: Seq<Highlight>)
    ensures
        adds_markers(acc, user_dir_pass(b, row, i, acc)),
    decreases b.len() - i,
{
    if 0 <= i < b.len() {
        if b[i] != 92 && b[i] != 47 {
            lemma_user_dir(b, row, i + 1, acc);
        } else {
            match crate::detect::marker_len(b, i) {
                None => lemma_user_dir(b, row, i + 1, acc),
                Some(m) => {
                    crate::runs::lemma_run_end(b, i + m, crate::runs::Class::Tok);
                    let start = i + m;
                    let end = crate::runs::run_end(b, start, crate::runs::Class::Tok);
                    let acc2 = if end > start && !crate::detect::inside_url(
                        acc,
                        row,
                        start as u16,
                    ) {
                        acc.push(
                            hl(
                                row,
                                start,
                                end - 1,
                                HighlightColor::Ansi(5),
                                HighlightKind::UserDir,
                            ),
                        )
                    } else {
                        acc
                    };
                    lemma_user_dir(b, row, if end > i + 1 { end } else { i + 1 }, acc2);
                    assert(adds_markers(acc, acc2));
                    lemma_markers_trans(acc, acc2, user_dir_pass(b, row, i, acc));
                },
            }
        }
    }
}

proof fn lemma_known_host_term(
    t: Seq<char>,
    b: Seq<u8>,
    row: u16,
    term: Seq<char>,
    from: int,
    acc: Seq<Highlight>,
)
    ensures
        adds_markers(acc, known_host_term(t, b, row, term, from, acc)),
    decreases t.len() - from,
{
    if term.len() > 0 && from >= 0 {
        match crate::detect::find_from(t, term, from) {
            None => {},
            Some(s0) => {
                crate::detect::lemma_find_from(t, term, from);
                let e0 = s0 + term.len();
                let bounded = (s0 == 0 || !crate::runs::spec_is_tok(b[s0 - 1])) && (e0
                    >= b.len() || !crate::runs::spec_is_tok(b[e0]));
                let acc2 = if bounded {
                    acc.push(hl(row, s0, e0 - 1, HighlightColor::Ansi(5), HighlightKind::KnownHost))
                } else {
                    acc
                };
                lemma_known_host_term(t, b, row, term, e0, acc2);
                assert(adds_markers(acc, acc2));
                lemma_markers_trans(acc, acc2, known_host_term(t, b, row, term, from, acc));
            },
        }
    }
}

proof fn lemma_known_host(
    t: Seq<char>,
    b: Seq<u8>,
    row: u16,
    terms: Seq<Seq<char>>,
    q: int,
    acc: Seq<Highlight>,
)
    ensures
        adds_markers(acc, known_host_pass(t, b, row, terms, q, acc)),
    decreases terms.len() - q,
{
    if 0 <= q < terms.len() {
        let a = known_host_term(t, b, row, terms[q], 0, acc);
        lemma_known_host_term(t, b, row, terms[q], 0, acc);
        lemma_known_host(t, b, row, terms, q + 1, a);
        lemma_markers_trans(acc, a, known_host_pass(t, b, row, terms, q, acc));
    }
}

/// One row only ever adds spans, and with Privacy Mode off it adds only
/// colouring ones.
proof fn lemma_detect_row(
    cols: Seq<(u16, char)>,
    row: u16,
    w: Option<u16>,
    acc: Seq<Highlight>,
    carry: Option<u16>,
    privacy: bool,
    terms: Seq<Seq<char>>,
    classes: PrivacyClasses,
)
    ensures
        extends(acc, detect_row(cols, row, w, acc, carry, privacy, terms, classes).0),
        !privacy ==> adds_colouring(
            acc,
            detect_row(cols, row, w, acc, carry, privacy, terms, classes).0,
        ),
{
    let t = spec_row_text(cols);
    let b = proj_seq(t);
    let claimed = carry == Some(crate::detect::prev_row(row));
    let (a1, c) = url_row(t, b, row, w, claimed, acc);
    lemma_url_row(t, b, row, w, claimed, acc);
    let a2 = v4_pass(t, b, row, quad_scan(b, 0, seq![]), 0, a1, privacy, terms, classes);
    lemma_v4(t, b, row, quad_scan(b, 0, seq![]), 0, a1, privacy, terms, classes);
    let a3 = v6_pass(b, row, 0, a2, privacy, classes);
    lemma_v6(b, row, 0, a2, privacy, classes);
    let a4 = if privacy && classes.usernames {
        host_user_pass(b, row, 0, a3)
    } else {
        a3
    };
    if privacy && classes.usernames {
        lemma_host_user(b, row, 0, a3);
    }
    let a5 = if privacy && classes.usernames {
        user_dir_pass(b, row, 0, a4)
    } else {
        a4
    };
    if privacy && classes.usernames {
        lemma_user_dir(b, row, 0, a4);
    }
    let a6 = if privacy && terms.len() > 0 {
        known_host_pass(t, b, row, terms, 0, a5)
    } else {
        a5
    };
    if privacy && terms.len() > 0 {
        lemma_known_host(t, b, row, terms, 0, a5);
    }
    let a7 = path_pass(b, row, 0, a6);
    lemma_path(b, row, 0, a6);
    let a8 = number_pass(b, row, 0, a7);
    lemma_number(b, row, 0, a7);
    lemma_adds_trans(acc, a1, a2);
    lemma_adds_trans(acc, a2, a3);
    lemma_extends_trans(acc, a3, a4);
    lemma_extends_trans(acc, a4, a5);
    lemma_extends_trans(acc, a5, a6);
    lemma_extends_trans(acc, a6, a7);
    lemma_extends_trans(acc, a7, a8);
    if !privacy {
        lemma_adds_trans(acc, a3, a7);
        lemma_adds_trans(acc, a7, a8);
    }
}

proof fn lemma_detect_from(
    rows: Seq<ScanRow>,
    k: int,
    acc: Seq<Highlight>,
    carry: Option<u16>,
    privacy: bool,
    terms: Seq<Seq<char>>,
    classes: PrivacyClasses,
)
    ensures
        extends(acc, detect_from(rows, k, acc, carry, privacy, terms, classes)),
        !privacy ==> adds_colouring(acc, detect_from(rows, k, acc, carry, privacy, terms, classes)),
    decreases rows.len() - k,
{
    if 0 <= k < rows.len() {
        let (a, c) = detect_row(
            rows[k].cols@,
            rows[k].row,
            rows[k].wraps_at,
            acc,
            carry,
            privacy,
            terms,
            classes,
        );
        lemma_detect_row(
            rows[k].cols@,
            rows[k].row,
            rows[k].wraps_at,
            acc,
            carry,
            privacy,
            terms,
            classes,
        );
        lemma_detect_from(rows, k + 1, a, c, privacy, terms, classes);
        lemma_extends_trans(acc, a, detect_from(rows, k, acc, carry, privacy, terms, classes));
        if !privacy {
            lemma_adds_trans(acc, a, detect_from(rows, k, acc, carry, privacy, terms, classes));
        }
    }
}

/// With Privacy Mode off the scanner reports no `user@host`, home-directory
/// or saved-hostname markers: those exist only to be masked.
pub proof fn law_privacy_markers_need_privacy_mode(
    rows: Seq<ScanRow>,
    terms: Seq<Seq<char>>,
    classes: PrivacyClasses,
)
    ensures
        forall|j: int|
            0 <= j < spec_detect(rows, false, terms, classes).len() ==> !spec_privacy_only(
                #[trigger] spec_detect(rows, false, terms, classes)[j].kind,
            ),
{
    lemma_detect_from(rows, 0, seq![], None, false, terms, classes);
}

} // verus!

verus! {

/// The span the IPv4 pass masks for candidate `c` of a row.
pub open spec fn masked_quad(row: u16, cands: Seq<(usize, usize)>, c: int) -> Highlight {
    hl(row, cands[c].0 as int, cands[c].1 as int - 1, HighlightColor::Ansi(5), HighlightKind::Ip)
}

/// Candidate `c` of row text `t` is a saved term or in an enabled class.
pub open spec fn quad_masked(
    t: Seq<char>,
    cands: Seq<(usize, usize)>,
    c: int,
    terms: Seq<Seq<char>>,
    classes: PrivacyClasses,
) -> bool {
    let s = cands[c].0 as int;
    let e = cands[c].1 as int;
    term_hit(terms, t.subrange(s, e)) || class_on(classes, spec_private_v4(proj_seq(t).subrange(s, e)))
}

proof fn lemma_v4_masks(
    t: Seq<char>,
    row: u16,
    cands: Seq<(usize, usize)>,
    k: int,
    acc: Seq<Highlight>,
    terms: Seq<Seq<char>>,
    classes: PrivacyClasses,
    c: int,
)
    requires
        0 <= k <= c < cands.len(),
        quad_masked(t, cands, c, terms, classes),
    ensures
        exists|j: int|
            0 <= j < v4_pass(t, proj_seq(t), row, cands, k, acc, true, terms, classes).len()
                && v4_pass(t, proj_seq(t), row, cands, k, acc, true, terms, classes)[j]
                == masked_quad(row, cands, c),
    decreases c - k,
{
    let b = proj_seq(t);
    let s = cands[k].0 as int;
    let e = cands[k].1 as int;
    let dominated = crate::highlight::covered(acc, row, s as u16);
    let masked = term_hit(terms, t.subrange(s, e)) || class_on(
        classes,
        spec_private_v4(b.subrange(s, e)),
    );
    let h = hl(
        row,
        s,
        e - 1,
        HighlightColor::Ansi(5),
        if masked {
            HighlightKind::Ip
        } else {
            HighlightKind::VersionQuad
        },
    );
    let next = if dominated && !masked { acc } else { acc.push(h) };
    assert(v4_pass(t, b, row, cands, k, acc, true, terms, classes) == v4_pass(
        t,
        b,
        row,
        cands,
        k + 1,
        next,
        true,
        terms,
        classes,
    ));
    if k < c {
        lemma_v4_masks(t, row, cands, k + 1, next, terms, classes, c);
    } else {
        lemma_v4(t, b, row, cands, k + 1, next, true, terms, classes);
        assert(next[acc.len() as int] == masked_quad(row, cands, c));
    }
}

/// Under Privacy Mode, every range-valid IPv4 candidate of every row that
/// equals a saved hostname or whose address class (public / private) is
/// enabled is reported as a masked `Ip` span covering exactly the
/// candidate, whatever other span (a URL, say) already covers it.
pub proof fn law_privacy_masks_every_enabled_quad(
    rows: Seq<ScanRow>,
    terms: Seq<Seq<char>>,
    classes: PrivacyClasses,
    k: int,
    c: int,
)
    requires
        0 <= k < rows.len(),
        0 <= c < quad_scan(proj_seq(spec_row_text(rows[k].cols@)), 0, seq![]).len(),
        quad_masked(
            spec_row_text(rows[k].cols@),
            quad_scan(proj_seq(spec_row_text(rows[k].cols@)), 0, seq![]),
            c,
            terms,
            classes,
        ),
    ensures
        exists|j: int|
            0 <= j < spec_detect(rows, true, terms, classes).len() && spec_detect(
                rows,
                true,
                terms,
                classes,
            )[j] == masked_quad(
                rows[k].row,
                quad_scan(proj_seq(spec_row_text(rows[k].cols@)), 0, seq![]),
                c,
            ),
{
    let empty: Seq<Highlight> = seq![];
    lemma_from_masks(rows, 0, empty, None, terms, classes, k, c);
    assert(spec_detect(rows, true, terms, classes) == detect_from(
        rows,
        0,
        empty,
        None,
        true,
        terms,
        classes,
    ));
}

proof fn lemma_from_masks(
    rows: Seq<ScanRow>,
    k0: int,
    acc: Seq<Highlight>,
    carry: Option<u16>,
    terms: Seq<Seq<char>>,
    classes: PrivacyClasses,
    k: int,
    c: int,
)
    requires
        0 <= k0 <= k < rows.len(),
        0 <= c < quad_scan(proj_seq(spec_row_text(rows[k].cols@)), 0, seq![]).len(),
        quad_masked(
            spec_row_text(rows[k].cols@),
            quad_scan(proj_seq(spec_row_text(rows[k].cols@)), 0, seq![]),
            c,
            terms,
            classes,
        ),
    ensures
        exists|j: int|
            0 <= j < detect_from(rows, k0, acc, carry, true, terms, classes).len() && detect_from(
                rows,
                k0,
                acc,
                carry,
                true,
                terms,
                classes,
            )[j] == masked_quad(
                rows[k].row,
                quad_scan(proj_seq(spec_row_text(rows[k].cols@)), 0, seq![]),
                c,
            ),
    decreases k - k0,
{
    let (a, cr) = detect_row(
        rows[k0].cols@,
        rows[k0].row,
        rows[k0].wraps_at,
        acc,
        carry,
        true,
        terms,
        classes,
    );
    if k0 < k {
        lemma_from_masks(rows, k0 + 1, a, cr, terms, classes, k, c);
    } else {
        let cols = rows[k].cols@;
        let row = rows[k].row;
        let t = spec_row_text(cols);
        let b = proj_seq(t);
        let cands = quad_scan(b, 0, seq![]);
        let claimed = carry == Some(crate::detect::prev_row(row));
        let (a1, c1) = url_row(t, b, row, rows[k].wraps_at, claimed, acc);
        let a2 = v4_pass(t, b, row, cands, 0, a1, true, terms, classes);
        lemma_v4_masks(t, row, cands, 0, a1, terms, classes, c);
        let j = choose|j: int| 0 <= j < a2.len() && a2[j] == masked_quad(row, cands, c);
        let a3 = v6_pass(b, row, 0, a2, true, classes);
        lemma_v6(b, row, 0, a2, true, classes);
        let a4 = if classes.usernames {
            host_user_pass(b, row, 0, a3)
        } else {
            a3
        };
        if classes.usernames {
            lemma_host_user(b, row, 0, a3);
        }
        let a5 = if classes.usernames {
            user_dir_pass(b, row, 0, a4)
        } else {
            a4
        };
        if classes.usernames {
            lemma_user_dir(b, row, 0, a4);
        }
        let a6 = if terms.len() > 0 {
            known_host_pass(t, b, row, terms, 0, a5)
        } else {
            a5
        };
        if terms.len() > 0 {
            lemma_known_host(t, b, row, terms, 0, a5);
        }
        let a7 = path_pass(b, row, 0, a6);
        lemma_path(b, row, 0, a6);
        let a8 = number_pass(b, row, 0, a7);
        lemma_number(b, row, 0, a7);
        assert(a == a8);
        lemma_extends_trans(a2, a3, a4);
        lemma_extends_trans(a2, a4, a5);
        lemma_extends_trans(a2, a5, a6);
        lemma_extends_trans(a2, a6, a7);
        lemma_extends_trans(a2, a7, a8);
        lemma_detect_from(rows, k + 1, a, cr, true, terms, classes);
        assert(detect_from(rows, k0, acc, carry, true, terms, classes)[j] == masked_quad(
            row,
            cands,
            c,
        ));
    }
}

/// A row's URL scan only carries when the row soft-wraps.
proof fn lemma_url_scan_carry(
    t: Seq<char>,
    b: Seq<u8>,
    row: u16,
    wraps_at: Option<u16>,
    i: int,
    acc: Seq<Highlight>,
    carry: bool,
)
    ensures
        url_scan(t, b, row, wraps_at, i, acc, carry).1 ==> carry || wraps_at is Some,
    decreases t.len() - i,
{
    if i < 0 || i >= t.len() {
    } else if crate::detect::url_start(t, i) {
        crate::detect::lemma_url_start_chars(t, i);
        crate::runs::lemma_token_end(t, i);
        let end = crate::runs::token_end(t, i);
        let carries_on = wraps_at == Some((end - 1) as u16);
        let cut = if carries_on { end } else { crate::runs::trim_tail(b, end, i) };
        lemma_url_scan_carry(
            t,
            b,
            row,
            wraps_at,
            end,
            acc.push(hl(row, i, cut - 1, HighlightColor::Ansi(4), HighlightKind::Url)),
            carry || carries_on,
        );
    } else {
        lemma_url_scan_carry(t, b, row, wraps_at, i + 1, acc, carry);
    }
}

/// Only a row that soft-wraps hands a URL on to the next row, and what it
/// hands on names that row: a hard line break carries nothing. (The next
/// row claims the carry only when it is the row right below.)
pub proof fn law_only_a_soft_wrap_carries_a_url(
    cols: Seq<(u16, char)>,
    row: u16,
    wraps_at: Option<u16>,
    acc: Seq<Highlight>,
    carry: Option<u16>,
    privacy: bool,
    terms: Seq<Seq<char>>,
    classes: PrivacyClasses,
)
    ensures
        ({
            let out = detect_row(cols, row, wraps_at, acc, carry, privacy, terms, classes).1;
            out is Some ==> wraps_at is Some && out == Some(row)
        }),
{
    let t = spec_row_text(cols);
    let b = proj_seq(t);
    let claimed = carry == Some(crate::detect::prev_row(row));
    if claimed && crate::runs::token_end(t, 0) > 0 {
        let end = crate::runs::token_end(t, 0);
        let carries_on = wraps_at == Some((end - 1) as u16);
        let cut = if carries_on { end } else { crate::runs::trim_tail(b, end, 0) };
        let spans = if cut == 0 {
            acc
        } else {
            acc.push(hl(row, 0, cut - 1, HighlightColor::Ansi(4), HighlightKind::Url))
        };
        lemma_url_scan_carry(t, b, row, wraps_at, end, spans, carries_on);
    } else {
        lemma_url_scan_carry(t, b, row, wraps_at, 0, acc, false);
    }
}

/// `a` and `b` draw every cell with the same colour.
pub open spec fn same_colours(a: Seq<Highlight>, b: Seq<Highlight>) -> bool {
    forall|row: u16, col: u16| #[trigger] first_colour(a, row, col) == first_colour(b, row, col)
}

proof fn lemma_first_colour_push(a: Seq<Highlight>, h: Highlight, row: u16, col: u16)
    ensures
        first_colour(a.push(h), row, col) == (match first_colour(a, row, col) {
            Some(c) => Some(c),
            None => if colours(h) && covers(h, row, col) { Some(h.color) } else { None },
        }),
    decreases a.len(),
{
    if a.len() > 0 {
        assert(a.push(h)[0] == a[0]);
        assert(a.push(h).drop_first() =~= a.drop_first().push(h));
        lemma_first_colour_push(a.drop_first(), h, row, col);
    } else {
        assert(a.push(h)[0] == h);
        assert(a.push(h).drop_first() =~= Seq::<Highlight>::empty());
        assert(first_colour(Seq::<Highlight>::empty(), row, col) is None);
        assert(first_colour(a, row, col) is None);
    }
}

proof fn lemma_coloured_is_first_colour(a: Seq<Highlight>, row: u16, col: u16)
    ensures
        coloured(a, row, col) <==> first_colour(a, row, col) is Some,
    decreases a.len(),
{
    if a.len() > 0 {
        lemma_coloured_is_first_colour(a.drop_first(), row, col);
        if coloured(a, row, col) {
            let k = choose|k: int| 0 <= k < a.len() && colours(#[trigger] a[k]) && covers(a[k], row, col);
            if k > 0 {
                assert(a.drop_first()[k - 1] == a[k]);
            }
        }
        if coloured(a.drop_first(), row, col) {
            let k = choose|k: int|
                0 <= k < a.drop_first().len() && colours(#[trigger] a.drop_first()[k]) && covers(
                    a.drop_first()[k],
                    row,
                    col,
                );
            assert(a[k + 1] == a.drop_first()[k]);
        }
        if colours(a[0]) && covers(a[0], row, col) {
            assert(coloured(a, row, col));
        }
    }
}

proof fn lemma_same_colours_push(a: Seq<Highlight>, b: Seq<Highlight>, h: Highlight)
    requires
        same_colours(a, b),
    ensures
        same_colours(a.push(h), b.push(h)),
{
    assert forall|row: u16, col: u16| #[trigger] first_colour(a.push(h), row, col) == first_colour(b.push(h), row, col) by {
        lemma_first_colour_push(a, h, row, col);
        lemma_first_colour_push(b, h, row, col);
        assert(first_colour(a, row, col) == first_colour(b, row, col));
    }
}

/// Markers appended after `a` change no cell's colour.
proof fn lemma_markers_keep_colours(a: Seq<Highlight>, res: Seq<Highlight>)
    requires
        adds_markers(a, res),
    ensures
        same_colours(res, a),
    decreases res.len() - a.len(),
{
    if res.len() == a.len() {
        assert(res =~= a);
    } else {
        let prev = res.drop_last();
        assert(adds_markers(a, prev));
        lemma_markers_keep_colours(a, prev);
        assert(res =~= prev.push(res.last()));
        assert forall|row: u16, col: u16| #[trigger] first_colour(res, row, col) == first_colour(a, row, col) by {
            lemma_first_colour_push(prev, res.last(), row, col);
            assert(first_colour(prev, row, col) == first_colour(a, row, col));
        }
    }
}

proof fn lemma_same_colours_coloured(a: Seq<Highlight>, b: Seq<Highlight>, row: u16, col: u16)
    requires
        same_colours(a, b),
    ensures
        coloured(a, row, col) == coloured(b, row, col),
{
    lemma_coloured_is_first_colour(a, row, col);
    lemma_coloured_is_first_colour(b, row, col);
    assert(first_colour(a, row, col) == first_colour(b, row, col));
}

/// The path pass decides on the colours drawn so far alone.
proof fn lemma_path_colours(b: Seq<u8>, row: u16, i: int, a1: Seq<Highlight>, a2: Seq<Highlight>)
    requires
        same_colours(a1, a2),
    ensures
        same_colours(path_pass(b, row, i, a1), path_pass(b, row, i, a2)),
    decreases b.len() - i,
{
    if 0 <= i < b.len() {
        if b[i] == 47 && !(i > 0 && crate::detect::path_glue(b[i - 1])) {
            crate::runs::lemma_run_end(b, i + 1, crate::runs::Class::Path);
            let j = crate::runs::run_end(b, i + 1, crate::runs::Class::Path);
            if j - i >= 3 {
                crate::runs::lemma_path_back(b, i, j);
                let j2 = crate::runs::path_back(b, i, j);
                lemma_same_colours_coloured(a1, a2, row, i as u16);
                if !coloured(a1, row, i as u16) && j2 - i >= 3 {
                    let h = hl(row, i, j2 - 1, HighlightColor::Ansi(6), HighlightKind::Path);
                    lemma_same_colours_push(a1, a2, h);
                    lemma_path_colours(b, row, j2, a1.push(h), a2.push(h));
                } else {
                    lemma_path_colours(b, row, j2, a1, a2);
                }
            } else {
                lemma_path_colours(b, row, i + 1, a1, a2);
            }
        } else {
            lemma_path_colours(b, row, i + 1, a1, a2);
        }
    }
}

/// The number pass decides on the colours drawn so far alone.
proof fn lemma_number_colours(b: Seq<u8>, row: u16, i: int, a1: Seq<Highlight>, a2: Seq<Highlight>)
    requires
        same_colours(a1, a2),
    ensures
        same_colours(number_pass(b, row, i, a1), number_pass(b, row, i, a2)),
    decreases b.len() - i,
{
    if 0 <= i < b.len() {
        if !crate::detect::number_start(b, i) || (i > 0 && crate::ascii::spec_is_digit(b[i])
            && crate::ascii::spec_is_word_byte(b[i - 1])) {
            lemma_number_colours(b, row, i + 1, a1, a2);
        } else {
            crate::detect::lemma_number_end(b, i);
            let j = crate::detect::number_end(b, i);
            lemma_same_colours_coloured(a1, a2, row, i as u16);
            if j < b.len() && crate::ascii::spec_is_word_byte(b[j]) {
                lemma_number_colours(b, row, j, a1, a2);
            } else if !coloured(a1, row, i as u16) {
                let h = hl(row, i, j - 1, HighlightColor::Ansi(5), HighlightKind::Number);
                lemma_same_colours_push(a1, a2, h);
                lemma_number_colours(b, row, j, a1.push(h), a2.push(h));
            } else {
                lemma_number_colours(b, row, j, a1, a2);
            }
        }
    }
}

/// The Privacy Mode markers (`user@host`, home-directory names, saved
/// hostnames) never change how a cell is coloured: the path and number
/// passes that run after them colour every cell as they would without
/// them.
pub proof fn law_privacy_markers_never_change_colours(
    cols: Seq<(u16, char)>,
    row: u16,
    acc: Seq<Highlight>,
    terms: Seq<Seq<char>>,
    classes: PrivacyClasses,
)
    ensures
        ({
            let t = spec_row_text(cols);
            let b = proj_seq(t);
            let a4 = if classes.usernames { host_user_pass(b, row, 0, acc) } else { acc };
            let a5 = if classes.usernames { user_dir_pass(b, row, 0, a4) } else { a4 };
            let a6 = if terms.len() > 0 { known_host_pass(t, b, row, terms, 0, a5) } else { a5 };
            same_colours(
                number_pass(b, row, 0, path_pass(b, row, 0, a6)),
                number_pass(b, row, 0, path_pass(b, row, 0, acc)),
            )
        }),
{
    let t = spec_row_text(cols);
    let b = proj_seq(t);
    let a4 = if classes.usernames { host_user_pass(b, row, 0, acc) } else { acc };
    let a5 = if classes.usernames { user_dir_pass(b, row, 0, a4) } else { a4 };
    let a6 = if terms.len() > 0 { known_host_pass(t, b, row, terms, 0, a5) } else { a5 };
    if classes.usernames {
        lemma_host_user(b, row, 0, acc);
        lemma_user_dir(b, row, 0, a4);
    }
    assert(adds_markers(acc, a4));
    assert(adds_markers(a4, a5));
    lemma_markers_trans(acc, a4, a5);
    if terms.len() > 0 {
        lemma_known_host(t, b, row, terms, 0, a5);
    }
    assert(adds_markers(a5, a6));
    lemma_markers_trans(acc, a5, a6);
    lemma_markers_keep_colours(acc, a6);
    lemma_path_colours(b, row, 0, a6, acc);
    lemma_number_colours(b, row, 0, path_pass(b, row, 0, a6), path_pass(b, row, 0, acc));
}

/// `h` lies on `row` and runs forwards within the first `n` columns.
pub open spec fn in_row(h: Highlight, row: u16, n: int) -> bool {
    h.row == row && h.start_col <= h.end_col && (h.end_col as int) < n
}

/// Every span `res` adds after `acc` lies on `row` within `n` columns.
pub open spec fn stays(acc: Seq<Highlight>, res: Seq<Highlight>, row: u16, n: int) -> bool {
    extends(acc, res) && forall|k: int| acc.len() <= k < res.len() ==> in_row(#[trigger] res[k], row, n)
}

proof fn lemma_hl_in_row(row: u16, s: int, e: int, n: int, color: HighlightColor, kind: HighlightKind)
    requires
        0 <= s <= e < n <= 65536,
    ensures
        in_row(hl(row, s, e, color, kind), row, n),
{
}

proof fn lemma_stays_push(acc: Seq<Highlight>, h: Highlight, row: u16, n: int)
    requires
        in_row(h, row, n),
    ensures
        stays(acc, acc.push(h), row, n),
{
}

proof fn lemma_stays_trans(a: Seq<Highlight>, b: Seq<Highlight>, c: Seq<Highlight>, row: u16, n: int)
    requires
        stays(a, b, row, n),
        stays(b, c, row, n),
    ensures
        stays(a, c, row, n),
{
    assert forall|k: int| a.len() <= k < c.len() implies in_row(#[trigger] c[k], row, n) by {
        if k < b.len() {
            assert(c[k] == b[k]);
        }
    }
}

/// Trimming trailing punctuation never passes a non-punctuation byte.
proof fn lemma_trim_keeps_start(b: Seq<u8>, end: int, start: int)
    requires
        0 <= start < end <= b.len(),
        !crate::runs::spec_trail_punct(b[start]),
    ensures
        start < crate::runs::trim_tail(b, end, start) <= end,
    decreases end - start,
{
    if crate::runs::spec_trail_punct(b[end - 1]) {
        lemma_trim_keeps_start(b, end - 1, start);
    }
}

proof fn lemma_url_scan_stays(
    t: Seq<char>,
    b: Seq<u8>,
    row: u16,
    w: Option<u16>,
    i: int,
    acc: Seq<Highlight>,
    carry: bool,
)
    requires
        b == proj_seq(t),
        t.len() <= 65536,
    ensures
        stays(acc, url_scan(t, b, row, w, i, acc, carry).0, row, t.len() as int),
    decreases t.len() - i,
{
    if 0 <= i < t.len() {
        if crate::detect::url_start(t, i) {
            crate::detect::lemma_url_start_chars(t, i);
            crate::runs::lemma_token_end(t, i);
            let end = crate::runs::token_end(t, i);
            let carries_on = w == Some((end - 1) as u16);
            assert(b[i] == 104u8);
            if !carries_on {
                lemma_trim_keeps_start(b, end, i);
            }
            let cut = if carries_on { end } else { crate::runs::trim_tail(b, end, i) };
            let h = hl(row, i, cut - 1, HighlightColor::Ansi(4), HighlightKind::Url);
            lemma_hl_in_row(row, i, cut - 1, t.len() as int, HighlightColor::Ansi(4), HighlightKind::Url);
            lemma_stays_push(acc, h, row, t.len() as int);
            lemma_url_scan_stays(t, b, row, w, end, acc.push(h), carry || carries_on);
            lemma_stays_trans(acc, acc.push(h), url_scan(t, b, row, w, i, acc, carry).0, row, t.len() as int);
        } else {
            lemma_url_scan_stays(t, b, row, w, i + 1, acc, carry);
        }
    }
}

proof fn lemma_url_row_stays(
    t: Seq<char>,
    b: Seq<u8>,
    row: u16,
    w: Option<u16>,
    claimed: bool,
    acc: Seq<Highlight>,
)
    requires
        b == proj_seq(t),
        t.len() <= 65536,
    ensures
        stays(acc, url_row(t, b, row, w, claimed, acc).0, row, t.len() as int),
{
    if claimed && crate::runs::token_end(t, 0) > 0 {
        crate::runs::lemma_token_end(t, 0);
        let end = crate::runs::token_end(t, 0);
        let carries_on = w == Some((end - 1) as u16);
        if !carries_on {
            crate::runs::lemma_trim_tail(b, end, 0);
        }
        let cut = if carries_on { end } else { crate::runs::trim_tail(b, end, 0) };
        if cut == 0 {
            lemma_url_scan_stays(t, b, row, w, end, acc, carries_on);
        } else {
            let h = hl(row, 0, cut - 1, HighlightColor::Ansi(4), HighlightKind::Url);
            lemma_hl_in_row(row, 0, cut - 1, t.len() as int, HighlightColor::Ansi(4), HighlightKind::Url);
            lemma_stays_push(acc, h, row, t.len() as int);
            lemma_url_scan_stays(t, b, row, w, end, acc.push(h), carries_on);
            lemma_stays_trans(acc, acc.push(h), url_row(t, b, row, w, claimed, acc).0, row, t.len() as int);
        }
    } else {
        lemma_url_scan_stays(t, b, row, w, 0, acc, false);
    }
}

proof fn lemma_v4_stays(
    t: Seq<char>,
    b: Seq<u8>,
    row: u16,
    cands: Seq<(usize, usize)>,
    k: int,
    acc: Seq<Highlight>,
    privacy: bool,
    terms: Seq<Seq<char>>,
    classes: PrivacyClasses,
)
    requires
        b.len() <= 65536,
        forall|q: int| 0 <= q < cands.len() ==> (#[trigger] cands[q]).0 < cands[q].1 <= b.len(),
    ensures
        stays(acc, v4_pass(t, b, row, cands, k, acc, privacy, terms, classes), row, b.len() as int),
    decreases cands.len() - k,
{
    if 0 <= k < cands.len() {
        let s = cands[k].0 as int;
        let e = cands[k].1 as int;
        let dominated = crate::highlight::covered(acc, row, s as u16);
        let masked = term_hit(terms, t.subrange(s, e)) || class_on(
            classes,
            spec_private_v4(b.subrange(s, e)),
        );
        if dominated && !(privacy && masked) {
            lemma_v4_stays(t, b, row, cands, k + 1, acc, privacy, terms, classes);
        } else {
            let kind = if masked { HighlightKind::Ip } else { HighlightKind::VersionQuad };
            let h = hl(row, s, e - 1, HighlightColor::Ansi(5), kind);
            lemma_hl_in_row(row, s, e - 1, b.len() as int, HighlightColor::Ansi(5), kind);
            lemma_stays_push(acc, h, row, b.len() as int);
            lemma_v4_stays(t, b, row, cands, k + 1, acc.push(h), privacy, terms, classes);
            lemma_stays_trans(
                acc,
                acc.push(h),
                v4_pass(t, b, row, cands, k, acc, privacy, terms, classes),
                row,
                b.len() as int,
            );
        }
    }
}

proof fn lemma_v6_stays(
    b: Seq<u8>,
    row: u16,
    i: int,
    acc: Seq<Highlight>,
    privacy: bool,
    classes: PrivacyClasses,
)
    requires
        b.len() <= 65536,
    ensures
        stays(acc, v6_pass(b, row, i, acc, privacy, classes), row, b.len() as int),
    decreases b.len() - i,
{
    if 0 <= i < b.len() {
        if !crate::runs::spec_hexcolon(b[i]) {
            lemma_v6_stays(b, row, i + 1, acc, privacy, classes);
        } else {
            crate::runs::lemma_run_end(b, i, crate::runs::Class::HexColon);
            let j = crate::runs::run_end(b, i, crate::runs::Class::HexColon);
            let glued = (i > 0 && (crate::ascii::spec_is_word_byte(b[i - 1]) || b[i - 1] == 46))
                || (j < b.len() && crate::ascii::spec_is_word_byte(b[j]));
            let s2 = if j - i >= 2 && b[i] == 58 && b[i + 1] != 58 { i + 1 } else { i };
            let e2 = if j - s2 >= 2 && b[j - 1] == 58 && b[j - 2] != 58 { j - 1 } else { j };
            let seg = b.subrange(s2, e2);
            let on = class_on(classes, crate::ipv6::spec_ipv6_local_bytes(seg));
            if !glued && crate::scan::spec_looks_like_ipv6(seg) && (!crate::highlight::coloured(
                acc,
                row,
                s2 as u16,
            ) || (privacy && on)) {
                let kind = if on { HighlightKind::Ip } else { HighlightKind::VersionQuad };
                let h = hl(row, s2, e2 - 1, HighlightColor::Ansi(5), kind);
                lemma_hl_in_row(row, s2, e2 - 1, b.len() as int, HighlightColor::Ansi(5), kind);
                lemma_stays_push(acc, h, row, b.len() as int);
                lemma_v6_stays(b, row, j, acc.push(h), privacy, classes);
                lemma_stays_trans(acc, acc.push(h), v6_pass(b, row, i, acc, privacy, classes), row, b.len() as int);
            } else {
                lemma_v6_stays(b, row, j, acc, privacy, classes);
            }
        }
    }
}

proof fn lemma_host_user_stays(b: Seq<u8>, row: u16, i: int, acc: Seq<Highlight>)
    requires
        b.len() <= 65536,
    ensures
        stays(acc, host_user_pass(b, row, i, acc), row, b.len() as int),
    decreases b.len() - i,
{
    if 0 <= i < b.len() {
        if b[i] == 64 && i > 0 && i + 1 < b.len() && crate::runs::spec_is_tok(b[i - 1])
            && crate::runs::spec_is_tok(b[i + 1]) {
            crate::runs::lemma_run_end(b, i + 1, crate::runs::Class::Tok);
            crate::runs::lemma_tok_left(b, i);
            let start = crate::runs::tok_left(b, i);
            let end = crate::runs::run_end(b, i + 1, crate::runs::Class::Tok);
            let h = hl(row, start, end - 1, HighlightColor::Ansi(5), HighlightKind::HostUser);
            lemma_hl_in_row(row, start, end - 1, b.len() as int, HighlightColor::Ansi(5), HighlightKind::HostUser);
            lemma_stays_push(acc, h, row, b.len() as int);
            lemma_host_user_stays(b, row, end, acc.push(h));
            lemma_stays_trans(acc, acc.push(h), host_user_pass(b, row, i, acc), row, b.len() as int);
        } else {
            lemma_host_user_stays(b, row, i + 1, acc);
        }
    }
}

proof fn lemma_user_dir_stays(b: Seq<u8>, row: u16, i: int, acc: Seq<Highlight>)
    requires
        b.len() <= 65536,
    ensures
        stays(acc, user_dir_pass(b, row, i, acc), row, b.len() as int),
    decreases b.len() - i,
{
    if 0 <= i < b.len() {
        if b[i] != 92 && b[i] != 47 {
            lemma_user_dir_stays(b, row, i + 1, acc);
        } else {
            match crate::detect::marker_len(b, i) {
                None => lemma_user_dir_stays(b, row, i + 1, acc),
                Some(m) => {
                    crate::runs::lemma_run_end(b, i + m, crate::runs::Class::Tok);
                    let start = i + m;
                    let end = crate::runs::run_end(b, start, crate::runs::Class::Tok);
                    let acc2 = if end > start && !crate::detect::inside_url(acc, row, start as u16) {
                        let h = hl(row, start, end - 1, HighlightColor::Ansi(5), HighlightKind::UserDir);
                        lemma_hl_in_row(row, start, end - 1, b.len() as int, HighlightColor::Ansi(5), HighlightKind::UserDir);
                        lemma_stays_push(acc, h, row, b.len() as int);
                        acc.push(h)
                    } else {
                        acc
                    };
                    lemma_user_dir_stays(b, row, if end > i + 1 { end } else { i + 1 }, acc2);
                    lemma_stays_trans(acc, acc2, user_dir_pass(b, row, i, acc), row, b.len() as int);
                },
            }
        }
    }
}

proof fn lemma_known_host_term_stays(
    t: Seq<char>,
    b: Seq<u8>,
    row: u16,
    term: Seq<char>,
    from: int,
    acc: Seq<Highlight>,
)
    requires
        t.len() <= 65536,
        b.len() == t.len(),
    ensures
        stays(acc, known_host_term(t, b, row, term, from, acc), row, t.len() as int),
    decreases t.len() - from,
{
    if term.len() > 0 && from >= 0 {
        match crate::detect::find_from(t, term, from) {
            None => {},
            Some(s0) => {
                crate::detect::lemma_find_from(t, term, from);
                let e0 = s0 + term.len();
                let bounded = (s0 == 0 || !crate::runs::spec_is_tok(b[s0 - 1])) && (e0
                    >= b.len() || !crate::runs::spec_is_tok(b[e0]));
                let acc2 = if bounded {
                    let h = hl(row, s0, e0 - 1, HighlightColor::Ansi(5), HighlightKind::KnownHost);
                    lemma_hl_in_row(row, s0, e0 - 1, t.len() as int, HighlightColor::Ansi(5), HighlightKind::KnownHost);
                    lemma_stays_push(acc, h, row, t.len() as int);
                    acc.push(h)
                } else {
                    acc
                };
                lemma_known_host_term_stays(t, b, row, term, e0, acc2);
                lemma_stays_trans(acc, acc2, known_host_term(t, b, row, term, from, acc), row, t.len() as int);
            },
        }
    }
}

proof fn lemma_known_host_stays(
    t: Seq<char>,
    b: Seq<u8>,
    row: u16,
    terms: Seq<Seq<char>>,
    q: int,
    acc: Seq<Highlight>,
)
    requires
        t.len() <= 65536,
        b.len() == t.len(),
    ensures
        stays(acc, known_host_pass(t, b, row, terms, q, acc), row, t.len() as int),
    decreases terms.len() - q,
{
    if 0 <= q < terms.len() {
        let a = known_host_term(t, b, row, terms[q], 0, acc);
        lemma_known_host_term_stays(t, b, row, terms[q], 0, acc);
        lemma_known_host_stays(t, b, row, terms, q + 1, a);
        lemma_stays_trans(acc, a, known_host_pass(t, b, row, terms, q, acc), row, t.len() as int);
    }
}

proof fn lemma_path_stays(b: Seq<u8>, row: u16, i: int, acc: Seq<Highlight>)
    requires
        b.len() <= 65536,
    ensures
        stays(acc, path_pass(b, row, i, acc), row, b.len() as int),
    decreases b.len() - i,
{
    if 0 <= i < b.len() {
        if b[i] == 47 && !(i > 0 && crate::detect::path_glue(b[i - 1])) {
            crate::runs::lemma_run_end(b, i + 1, crate::runs::Class::Path);
            let j = crate::runs::run_end(b, i + 1, crate::runs::Class::Path);
            if j - i >= 3 {
                crate::runs::lemma_path_back(b, i, j);
                let j2 = crate::runs::path_back(b, i, j);
                if !coloured(acc, row, i as u16) && j2 - i >= 3 {
                    let h = hl(row, i, j2 - 1, HighlightColor::Ansi(6), HighlightKind::Path);
                    lemma_hl_in_row(row, i, j2 - 1, b.len() as int, HighlightColor::Ansi(6), HighlightKind::Path);
                    lemma_stays_push(acc, h, row, b.len() as int);
                    lemma_path_stays(b, row, j2, acc.push(h));
                    lemma_stays_trans(acc, acc.push(h), path_pass(b, row, i, acc), row, b.len() as int);
                } else {
                    lemma_path_stays(b, row, j2, acc);
                }
            } else {
                lemma_path_stays(b, row, i + 1, acc);
            }
        } else {
            lemma_path_stays(b, row, i + 1, acc);
        }
    }
}

proof fn lemma_number_stays(b: Seq<u8>, row: u16, i: int, acc: Seq<Highlight>)
    requires
        b.len() <= 65536,
    ensures
        stays(acc, number_pass(b, row, i, acc), row, b.len() as int),
    decreases b.len() - i,
{
    if 0 <= i < b.len() {
        if !crate::detect::number_start(b, i) || (i > 0 && crate::ascii::spec_is_digit(b[i])
            && crate::ascii::spec_is_word_byte(b[i - 1])) {
            lemma_number_stays(b, row, i + 1, acc);
        } else {
            crate::detect::lemma_number_end(b, i);
            let j = crate::detect::number_end(b, i);
            if j < b.len() && crate::ascii::spec_is_word_byte(b[j]) {
                lemma_number_stays(b, row, j, acc);
            } else if !coloured(acc, row, i as u16) {
                let h = hl(row, i, j - 1, HighlightColor::Ansi(5), HighlightKind::Number);
                lemma_hl_in_row(row, i, j - 1, b.len() as int, HighlightColor::Ansi(5), HighlightKind::Number);
                lemma_stays_push(acc, h, row, b.len() as int);
                lemma_number_stays(b, row, j, acc.push(h));
                lemma_stays_trans(acc, acc.push(h), number_pass(b, row, i, acc), row, b.len() as int);
            } else {
                lemma_number_stays(b, row, j, acc);
            }
        }
    }
}

proof fn lemma_detect_row_stays(
    cols: Seq<(u16, char)>,
    row: u16,
    w: Option<u16>,
    acc: Seq<Highlight>,
    carry: Option<u16>,
    privacy: bool,
    terms: Seq<Seq<char>>,
    classes: PrivacyClasses,
)
    ensures
        stays(
            acc,
            detect_row(cols, row, w, acc, carry, privacy, terms, classes).0,
            row,
            spec_row_text(cols).len() as int,
        ),
{
    let t = spec_row_text(cols);
    let b = proj_seq(t);
    let n = t.len() as int;
    crate::highlight::lemma_row_text_len(cols);
    let claimed = carry == Some(crate::detect::prev_row(row));
    let (a1, c) = url_row(t, b, row, w, claimed, acc);
    lemma_url_row_stays(t, b, row, w, claimed, acc);
    let cands = quad_scan(b, 0, seq![]);
    crate::detect::lemma_quad_scan_bounds(b, 0, seq![]);
    let a2 = v4_pass(t, b, row, cands, 0, a1, privacy, terms, classes);
    lemma_v4_stays(t, b, row, cands, 0, a1, privacy, terms, classes);
    let a3 = v6_pass(b, row, 0, a2, privacy, classes);
    lemma_v6_stays(b, row, 0, a2, privacy, classes);
    let a4 = if privacy && classes.usernames { host_user_pass(b, row, 0, a3) } else { a3 };
    if privacy && classes.usernames {
        lemma_host_user_stays(b, row, 0, a3);
    }
    let a5 = if privacy && classes.usernames { user_dir_pass(b, row, 0, a4) } else { a4 };
    if privacy && classes.usernames {
        lemma_user_dir_stays(b, row, 0, a4);
    }
    let a6 = if privacy && terms.len() > 0 { known_host_pass(t, b, row, terms, 0, a5) } else { a5 };
    if privacy && terms.len() > 0 {
        lemma_known_host_stays(t, b, row, terms, 0, a5);
    }
    let a7 = path_pass(b, row, 0, a6);
    lemma_path_stays(b, row, 0, a6);
    let a8 = number_pass(b, row, 0, a7);
    lemma_number_stays(b, row, 0, a7);
    lemma_stays_trans(acc, a1, a2, row, n);
    lemma_stays_trans(acc, a2, a3, row, n);
    lemma_stays_trans(acc, a3, a4, row, n);
    lemma_stays_trans(acc, a4, a5, row, n);
    lemma_stays_trans(acc, a5, a6, row, n);
    lemma_stays_trans(acc, a6, a7, row, n);
    lemma_stays_trans(acc, a7, a8, row, n);
}

/// `h` lies inside one of the scanned rows: on its row, running forwards,
/// and ending at or before that row's last cell.
pub open spec fn inside_some_row(h: Highlight, rows: Seq<ScanRow>) -> bool {
    exists|r: int| 0 <= r < rows.len() && in_row(h, (#[trigger] rows[r]).row, spec_row_text(rows[r].cols@).len() as int)
}

proof fn lemma_detect_from_stays(
    rows: Seq<ScanRow>,
    k: int,
    acc: Seq<Highlight>,
    carry: Option<u16>,
    privacy: bool,
    terms: Seq<Seq<char>>,
    classes: PrivacyClasses,
)
    requires
        0 <= k,
    ensures
        extends(acc, detect_from(rows, k, acc, carry, privacy, terms, classes)),
        forall|j: int|
            acc.len() <= j < detect_from(rows, k, acc, carry, privacy, terms, classes).len()
                ==> inside_some_row(#[trigger] detect_from(rows, k, acc, carry, privacy, terms, classes)[j], rows),
    decreases rows.len() - k,
{
    if k < rows.len() {
        let (a, c) = detect_row(rows[k].cols@, rows[k].row, rows[k].wraps_at, acc, carry, privacy, terms, classes);
        lemma_detect_row_stays(rows[k].cols@, rows[k].row, rows[k].wraps_at, acc, carry, privacy, terms, classes);
        lemma_detect_from_stays(rows, k + 1, a, c, privacy, terms, classes);
        let res = detect_from(rows, k, acc, carry, privacy, terms, classes);
        assert forall|j: int| acc.len() <= j < res.len() implies inside_some_row(#[trigger] res[j], rows) by {
            if j < a.len() {
                assert(res[j] == a[j]);
                assert(in_row(a[j], rows[k].row, spec_row_text(rows[k].cols@).len() as int));
            }
        }
    }
}

/// Every span the scanner reports lies inside a scanned row: on that row,
/// with its start at or before its end, and its end at or before the row's
/// last cell (so a carried URL tail that trims to nothing adds no span at
/// all, rather than one running off the row).
pub proof fn law_spans_stay_inside_their_rows(
    rows: Seq<ScanRow>,
    privacy: bool,
    terms: Seq<Seq<char>>,
    classes: PrivacyClasses,
)
    ensures
        forall|j: int|
            0 <= j < spec_detect(rows, privacy, terms, classes).len() ==> inside_some_row(
                #[trigger] spec_detect(rows, privacy, terms, classes)[j],
                rows,
            ),
{
    lemma_detect_from_stays(rows, 0, seq![], None, privacy, terms, classes);
}

// ---------------------------------------------------------------------------
// Privacy Mode changes no colour
// ---------------------------------------------------------------------------

proof fn lemma_token_end_stop(t: Seq<char>, i: int)
    requires
        0 <= i <= t.len(),
    ensures
        forall|m: int|
            i <= m < crate::runs::token_end(t, i) ==> !spec_is_whitespace(#[trigger] t[m]) && t[m] != '\0',
        crate::runs::token_end(t, i) < t.len() ==> (spec_is_whitespace(t[crate::runs::token_end(t, i)])
            || t[crate::runs::token_end(t, i)] == '\0'),
        i <= crate::runs::token_end(t, i) <= t.len(),
    decreases t.len() - i,
{
    if i < t.len() && !spec_is_whitespace(t[i]) && t[i] != '\0' {
        lemma_token_end_stop(t, i + 1);
    }
}

proof fn lemma_trim_punct(b: Seq<u8>, end: int, start: int)
    requires
        0 <= start <= end <= b.len(),
    ensures
        forall|m: int|
            crate::runs::trim_tail(b, end, start) <= m < end ==> crate::runs::spec_trail_punct(#[trigger] b[m]),
    decreases end - start,
{
    if end > start && crate::runs::spec_trail_punct(b[end - 1]) {
        lemma_trim_punct(b, end - 1, start);
    }
}

/// A URL span: it starts a non-blank token of the row and ends inside it,
/// only trailing punctuation of the token lying past its end.
pub open spec fn url_ok(t: Seq<char>, b: Seq<u8>, h: Highlight) -> bool {
    let us = h.start_col as int;
    let ue = h.end_col as int;
    let te = crate::runs::token_end(t, us);
    &&& us <= ue < te <= t.len()
    &&& forall|m: int| ue < m < te ==> crate::runs::spec_trail_punct(#[trigger] b[m])
}

/// A run of non-blank characters starting inside a URL span and ending in a
/// byte that is not trailing punctuation ends inside the span.
proof fn lemma_inside_url(t: Seq<char>, b: Seq<u8>, h: Highlight, qs: int, qe: int)
    requires
        url_ok(t, b, h),
        h.start_col <= qs <= h.end_col,
        qs < qe <= t.len(),
        b.len() == t.len(),
        forall|m: int| qs <= m < qe ==> !spec_is_whitespace(#[trigger] t[m]) && t[m] != '\0',
        !crate::runs::spec_trail_punct(b[qe - 1]),
    ensures
        qe - 1 <= h.end_col,
{
    let us = h.start_col as int;
    lemma_token_end_stop(t, us);
    let te = crate::runs::token_end(t, us);
    if qe > te {
        assert(!spec_is_whitespace(t[te]) && t[te] != '\0');
    }
    if qe - 1 > h.end_col {
        assert(crate::runs::spec_trail_punct(b[qe - 1]));
    }
}

/// A byte of the projection in one of the ASCII scan classes comes from a
/// non-blank character.
proof fn lemma_proj_not_blank(t: Seq<char>, m: int)
    requires
        0 <= m < t.len(),
        crate::runs::spec_hexcolon(proj_seq(t)[m]) || proj_seq(t)[m] == 46,
    ensures
        !spec_is_whitespace(t[m]) && t[m] != '\0',
{
}

/// Every span `res` adds after `acc` is a URL span on `row`.
pub open spec fn added_urls(acc: Seq<Highlight>, res: Seq<Highlight>, t: Seq<char>, b: Seq<u8>, row: u16) -> bool {
    extends(acc, res) && forall|k: int|
        acc.len() <= k < res.len() ==> (#[trigger] res[k]).row == row && url_ok(t, b, res[k]) && colours(res[k])
}

proof fn lemma_added_urls_trans(a: Seq<Highlight>, m: Seq<Highlight>, c: Seq<Highlight>, t: Seq<char>, b: Seq<u8>, row: u16)
    requires
        added_urls(a, m, t, b, row),
        added_urls(m, c, t, b, row),
    ensures
        added_urls(a, c, t, b, row),
{
    assert forall|k: int| a.len() <= k < c.len() implies (#[trigger] c[k]).row == row && url_ok(t, b, c[k]) && colours(c[k]) by {
        if k < m.len() {
            assert(c[k] == m[k]);
        }
    }
}

proof fn lemma_url_scan_onoff(
    t: Seq<char>,
    b: Seq<u8>,
    row: u16,
    w: Option<u16>,
    i: int,
    a1: Seq<Highlight>,
    a2: Seq<Highlight>,
    carry: bool,
)
    requires
        b == proj_seq(t),
        t.len() <= 65536,
        same_colours(a1, a2),
    ensures
        same_colours(url_scan(t, b, row, w, i, a1, carry).0, url_scan(t, b, row, w, i, a2, carry).0),
        url_scan(t, b, row, w, i, a1, carry).1 == url_scan(t, b, row, w, i, a2, carry).1,
        added_urls(a1, url_scan(t, b, row, w, i, a1, carry).0, t, b, row),
        added_urls(a2, url_scan(t, b, row, w, i, a2, carry).0, t, b, row),
    decreases t.len() - i,
{
    if 0 <= i < t.len() {
        if crate::detect::url_start(t, i) {
            crate::detect::lemma_url_start_chars(t, i);
            crate::runs::lemma_token_end(t, i);
            let end = crate::runs::token_end(t, i);
            let carries_on = w == Some((end - 1) as u16);
            assert(b[i] == 104u8);
            if !carries_on {
                lemma_trim_keeps_start(b, end, i);
                lemma_trim_punct(b, end, i);
            }
            let cut = if carries_on { end } else { crate::runs::trim_tail(b, end, i) };
            let h = hl(row, i, cut - 1, HighlightColor::Ansi(4), HighlightKind::Url);
            assert(url_ok(t, b, h));
            lemma_same_colours_push(a1, a2, h);
            lemma_url_scan_onoff(t, b, row, w, end, a1.push(h), a2.push(h), carry || carries_on);
            assert(added_urls(a1, a1.push(h), t, b, row));
            assert(added_urls(a2, a2.push(h), t, b, row));
            lemma_added_urls_trans(a1, a1.push(h), url_scan(t, b, row, w, i, a1, carry).0, t, b, row);
            lemma_added_urls_trans(a2, a2.push(h), url_scan(t, b, row, w, i, a2, carry).0, t, b, row);
        } else {
            lemma_url_scan_onoff(t, b, row, w, i + 1, a1, a2, carry);
        }
    }
}

proof fn lemma_url_row_onoff(
    t: Seq<char>,
    b: Seq<u8>,
    row: u16,
    w: Option<u16>,
    claimed: bool,
    a1: Seq<Highlight>,
    a2: Seq<Highlight>,
)
    requires
        b == proj_seq(t),
        t.len() <= 65536,
        same_colours(a1, a2),
    ensures
        same_colours(url_row(t, b, row, w, claimed, a1).0, url_row(t, b, row, w, claimed, a2).0),
        url_row(t, b, row, w, claimed, a1).1 == url_row(t, b, row, w, claimed, a2).1,
        added_urls(a1, url_row(t, b, row, w, claimed, a1).0, t, b, row),
        added_urls(a2, url_row(t, b, row, w, claimed, a2).0, t, b, row),
{
    if claimed && crate::runs::token_end(t, 0) > 0 {
        crate::runs::lemma_token_end(t, 0);
        let end = crate::runs::token_end(t, 0);
        let carries_on = w == Some((end - 1) as u16);
        if !carries_on {
            crate::runs::lemma_trim_tail(b, end, 0);
            lemma_trim_punct(b, end, 0);
        }
        let cut = if carries_on { end } else { crate::runs::trim_tail(b, end, 0) };
        if cut == 0 {
            lemma_url_scan_onoff(t, b, row, w, end, a1, a2, carries_on);
        } else {
            let h = hl(row, 0, cut - 1, HighlightColor::Ansi(4), HighlightKind::Url);
            assert(url_ok(t, b, h));
            lemma_same_colours_push(a1, a2, h);
            lemma_url_scan_onoff(t, b, row, w, end, a1.push(h), a2.push(h), carries_on);
            assert(added_urls(a1, a1.push(h), t, b, row));
            assert(added_urls(a2, a2.push(h), t, b, row));
            lemma_added_urls_trans(a1, a1.push(h), url_row(t, b, row, w, claimed, a1).0, t, b, row);
            lemma_added_urls_trans(a2, a2.push(h), url_row(t, b, row, w, claimed, a2).0, t, b, row);
        }
    } else {
        lemma_url_scan_onoff(t, b, row, w, 0, a1, a2, false);
    }
}

/// A dotted-quad candidate: digits and dots ending in a digit, its first
/// digit run ended by a dot inside it.
pub open spec fn quad_ok(b: Seq<u8>, c: (usize, usize)) -> bool {
    let qs = c.0 as int;
    let qe = c.1 as int;
    let e1 = crate::scan::digit_run_end(b, qs);
    &&& 0 <= qs < e1 < qe <= b.len()
    &&& forall|m: int| qs <= m < qe ==> (crate::ascii::spec_is_digit(#[trigger] b[m]) || b[m] == 46)
    &&& crate::ascii::spec_is_digit(b[qe - 1])
    &&& b[e1] == 46
    &&& forall|m: int| qs <= m < e1 ==> crate::ascii::spec_is_digit(#[trigger] b[m])
}

pub open spec fn quads_ok(b: Seq<u8>, cands: Seq<(usize, usize)>) -> bool {
    &&& forall|k: int| 0 <= k < cands.len() ==> quad_ok(b, #[trigger] cands[k])
    &&& forall|j: int, k: int| 0 <= j < k < cands.len() ==> (#[trigger] cands[j]).1 <= (#[trigger] cands[k]).0
}

proof fn lemma_quad_shape(b: Seq<u8>, i: int)
    requires
        0 <= i < b.len(),
        crate::scan::quad_end(b, i) is Some,
        b.len() <= usize::MAX,
    ensures
        quad_ok(b, (i as usize, crate::scan::quad_end(b, i)->0 as usize)),
{
    let e1 = crate::scan::digit_run_end(b, i);
    crate::scan::lemma_digit_run_end(b, i);
    let e2 = crate::scan::digit_run_end(b, e1 + 1);
    crate::scan::lemma_digit_run_end(b, e1 + 1);
    let e3 = crate::scan::digit_run_end(b, e2 + 1);
    crate::scan::lemma_digit_run_end(b, e2 + 1);
    let e4 = crate::scan::digit_run_end(b, e3 + 1);
    crate::scan::lemma_digit_run_end(b, e3 + 1);
    crate::scan::lemma_quad_end_bounds(b, i);
    assert forall|m: int| i <= m < e4 implies (crate::ascii::spec_is_digit(#[trigger] b[m]) || b[m] == 46) by {
        if m < e1 {
        } else if m == e1 {
        } else if m < e2 {
        } else if m == e2 {
        } else if m < e3 {
        } else if m == e3 {
        } else {
        }
    }
}

proof fn lemma_quad_scan_props(b: Seq<u8>, i: int, acc: Seq<(usize, usize)>)
    requires
        0 <= i <= b.len(),
        b.len() <= usize::MAX,
        quads_ok(b, acc),
        forall|k: int| 0 <= k < acc.len() ==> (#[trigger] acc[k]).1 <= i,
    ensures
        quads_ok(b, quad_scan(b, i, acc)),
    decreases b.len() - i,
{
    if i < b.len() {
        if crate::ascii::spec_is_digit(b[i]) && !(i > 0 && crate::scan::spec_glue(b[i - 1]))
            && crate::scan::quad_end(b, i) is Some && !(crate::scan::quad_end(b, i)->0 < b.len()
            && crate::scan::spec_glue(b[crate::scan::quad_end(b, i)->0])) {
            crate::scan::lemma_quad_end_bounds(b, i);
            let e = crate::scan::quad_end(b, i)->0;
            lemma_quad_shape(b, i);
            let c = (i as usize, e as usize);
            let acc2 = acc.push(c);
            assert forall|j: int, k: int| 0 <= j < k < acc2.len() implies (#[trigger] acc2[j]).1 <= (#[trigger] acc2[k]).0 by {
                if k < acc.len() {
                    assert(acc2[j] == acc[j] && acc2[k] == acc[k]);
                } else {
                    assert(acc2[j] == acc[j]);
                }
            }
            assert forall|k: int| 0 <= k < acc2.len() implies quad_ok(b, #[trigger] acc2[k]) by {
                if k < acc.len() {
                    assert(acc2[k] == acc[k]);
                }
            }
            lemma_quad_scan_props(b, e, acc2);
        } else {
            lemma_quad_scan_props(b, i + 1, acc);
        }
    }
}

/// `h` spans quad candidate `j`.
pub open spec fn spans_quad(h: Highlight, cands: Seq<(usize, usize)>, j: int) -> bool {
    0 <= j < cands.len() && h.start_col as int == cands[j].0 as int && h.end_col as int == cands[j].1 as int - 1
}

/// Before or during the address passes, each span of `acc` on `row` colours,
/// and is a URL span or spans one of the first `k` quad candidates.
pub open spec fn v4_shape(acc: Seq<Highlight>, t: Seq<char>, b: Seq<u8>, row: u16, cands: Seq<(usize, usize)>, k: int) -> bool {
    forall|x: int|
        0 <= x < acc.len() && (#[trigger] acc[x]).row == row ==> colours(acc[x]) && (url_ok(t, b, acc[x])
            || exists|j: int| j < k && spans_quad(acc[x], cands, j))
}

proof fn lemma_covered_coloured(acc: Seq<Highlight>, t: Seq<char>, b: Seq<u8>, row: u16, cands: Seq<(usize, usize)>, k: int, c: u16)
    requires
        v4_shape(acc, t, b, row, cands, k),
    ensures
        crate::highlight::covered(acc, row, c) == coloured(acc, row, c),
{
    if crate::highlight::covered(acc, row, c) {
        let x = choose|x: int| 0 <= x < acc.len() && covers(#[trigger] acc[x], row, c);
        assert(colours(acc[x]));
    }
}

/// A cell of a quad candidate that starts inside an earlier span of `acc` is
/// already coloured: that span is a URL span holding the whole candidate.
proof fn lemma_dominated_quad_coloured(
    acc: Seq<Highlight>,
    t: Seq<char>,
    b: Seq<u8>,
    row: u16,
    cands: Seq<(usize, usize)>,
    k: int,
    c: int,
)
    requires
        b == proj_seq(t),
        t.len() <= 65536,
        quads_ok(b, cands),
        0 <= k < cands.len(),
        v4_shape(acc, t, b, row, cands, k),
        crate::highlight::covered(acc, row, cands[k].0 as u16),
        cands[k].0 <= c < cands[k].1,
    ensures
        coloured(acc, row, c as u16),
{
    let s = cands[k].0 as int;
    let e = cands[k].1 as int;
    assert(quad_ok(b, cands[k]));
    let x = choose|x: int| 0 <= x < acc.len() && covers(#[trigger] acc[x], row, s as u16);
    let d = acc[x];
    if !url_ok(t, b, d) {
        let j = choose|j: int| j < k && spans_quad(d, cands, j);
        assert(cands[j].1 <= cands[k].0);
    }
    assert forall|m: int| s <= m < e implies !spec_is_whitespace(#[trigger] t[m]) && t[m] != '\0' by {
        lemma_proj_not_blank(t, m);
    }
    lemma_inside_url(t, b, d, s, e);
    assert(covers(acc[x], row, c as u16));
}

proof fn lemma_v4_onoff(
    t: Seq<char>,
    b: Seq<u8>,
    row: u16,
    cands: Seq<(usize, usize)>,
    k: int,
    a1: Seq<Highlight>,
    a2: Seq<Highlight>,
    terms: Seq<Seq<char>>,
    classes: PrivacyClasses,
)
    requires
        b == proj_seq(t),
        t.len() <= 65536,
        quads_ok(b, cands),
        0 <= k <= cands.len(),
        same_colours(a1, a2),
        v4_shape(a1, t, b, row, cands, k),
        v4_shape(a2, t, b, row, cands, k),
    ensures
        same_colours(
            v4_pass(t, b, row, cands, k, a1, true, terms, classes),
            v4_pass(t, b, row, cands, k, a2, false, terms, classes),
        ),
        v4_shape(v4_pass(t, b, row, cands, k, a1, true, terms, classes), t, b, row, cands, cands.len() as int),
        v4_shape(v4_pass(t, b, row, cands, k, a2, false, terms, classes), t, b, row, cands, cands.len() as int),
    decreases cands.len() - k,
{
    if k < cands.len() {
        let s = cands[k].0 as int;
        let e = cands[k].1 as int;
        assert(quad_ok(b, cands[k]));
        let masked = term_hit(terms, t.subrange(s, e)) || class_on(
            classes,
            spec_private_v4(b.subrange(s, e)),
        );
        lemma_covered_coloured(a1, t, b, row, cands, k, s as u16);
        lemma_covered_coloured(a2, t, b, row, cands, k, s as u16);
        lemma_same_colours_coloured(a1, a2, row, s as u16);
        let dominated = crate::highlight::covered(a2, row, s as u16);
        let kind = if masked { HighlightKind::Ip } else { HighlightKind::VersionQuad };
        let h = hl(row, s, e - 1, HighlightColor::Ansi(5), kind);
        assert(spans_quad(h, cands, k));
        if !dominated {
            lemma_same_colours_push(a1, a2, h);
            assert(v4_shape(a1.push(h), t, b, row, cands, k + 1)) by {
                assert forall|x: int| 0 <= x < a1.push(h).len() && (#[trigger] a1.push(h)[x]).row == row implies colours(a1.push(h)[x]) && (url_ok(t, b, a1.push(h)[x])
                    || exists|j: int| j < k + 1 && spans_quad(a1.push(h)[x], cands, j)) by {
                    if x < a1.len() {
                        assert(a1.push(h)[x] == a1[x]);
                        if !url_ok(t, b, a1[x]) {
                            let j = choose|j: int| j < k && spans_quad(a1[x], cands, j);
                            assert(j < k + 1 && spans_quad(a1.push(h)[x], cands, j));
                        }
                    } else {
                        assert(spans_quad(a1.push(h)[x], cands, k));
                    }
                }
            }
            assert(v4_shape(a2.push(h), t, b, row, cands, k + 1)) by {
                assert forall|x: int| 0 <= x < a2.push(h).len() && (#[trigger] a2.push(h)[x]).row == row implies colours(a2.push(h)[x]) && (url_ok(t, b, a2.push(h)[x])
                    || exists|j: int| j < k + 1 && spans_quad(a2.push(h)[x], cands, j)) by {
                    if x < a2.len() {
                        assert(a2.push(h)[x] == a2[x]);
                        if !url_ok(t, b, a2[x]) {
                            let j = choose|j: int| j < k && spans_quad(a2[x], cands, j);
                            assert(j < k + 1 && spans_quad(a2.push(h)[x], cands, j));
                        }
                    } else {
                        assert(spans_quad(a2.push(h)[x], cands, k));
                    }
                }
            }
            lemma_v4_onoff(t, b, row, cands, k + 1, a1.push(h), a2.push(h), terms, classes);
        } else {
            assert(v4_shape(a2, t, b, row, cands, k + 1)) by {
                assert forall|x: int| 0 <= x < a2.len() && (#[trigger] a2[x]).row == row implies colours(a2[x]) && (url_ok(t, b, a2[x])
                    || exists|j: int| j < k + 1 && spans_quad(a2[x], cands, j)) by {
                    if !url_ok(t, b, a2[x]) {
                        let j = choose|j: int| j < k && spans_quad(a2[x], cands, j);
                        assert(j < k + 1 && spans_quad(a2[x], cands, j));
                    }
                }
            }
            if masked {
                assert(same_colours(a1.push(h), a2)) by {
                    assert forall|r: u16, c: u16| #[trigger] first_colour(a1.push(h), r, c) == first_colour(a2, r, c) by {
                        lemma_first_colour_push(a1, h, r, c);
                        assert(first_colour(a1, r, c) == first_colour(a2, r, c));
                        if covers(h, r, c) {
                            lemma_dominated_quad_coloured(a2, t, b, row, cands, k, c as int);
                            lemma_coloured_is_first_colour(a2, row, c);
                        }
                    }
                }
                assert(v4_shape(a1.push(h), t, b, row, cands, k + 1)) by {
                    assert forall|x: int| 0 <= x < a1.push(h).len() && (#[trigger] a1.push(h)[x]).row == row implies colours(a1.push(h)[x]) && (url_ok(t, b, a1.push(h)[x])
                        || exists|j: int| j < k + 1 && spans_quad(a1.push(h)[x], cands, j)) by {
                        if x < a1.len() {
                            assert(a1.push(h)[x] == a1[x]);
                            if !url_ok(t, b, a1[x]) {
                                let j = choose|j: int| j < k && spans_quad(a1[x], cands, j);
                                assert(j < k + 1 && spans_quad(a1.push(h)[x], cands, j));
                            }
                        } else {
                            assert(spans_quad(a1.push(h)[x], cands, k));
                        }
                    }
                }
                lemma_v4_onoff(t, b, row, cands, k + 1, a1.push(h), a2, terms, classes);
            } else {
                assert(v4_shape(a1, t, b, row, cands, k + 1)) by {
                    assert forall|x: int| 0 <= x < a1.len() && (#[trigger] a1[x]).row == row implies colours(a1[x]) && (url_ok(t, b, a1[x])
                        || exists|j: int| j < k + 1 && spans_quad(a1[x], cands, j)) by {
                        if !url_ok(t, b, a1[x]) {
                            let j = choose|j: int| j < k && spans_quad(a1[x], cands, j);
                            assert(j < k + 1 && spans_quad(a1[x], cands, j));
                        }
                    }
                }
                lemma_v4_onoff(t, b, row, cands, k + 1, a1, a2, terms, classes);
            }
        }
    }
}

proof fn lemma_no_colon_counts(s: Seq<u8>, n: int)
    requires
        0 <= n <= s.len(),
        forall|m: int| 0 <= m < s.len() ==> #[trigger] s[m] != 58,
    ensures
        crate::scan::colon_count(s, n) == 0,
        crate::scan::pair_count(s, n) == 0,
    decreases n,
{
    if n > 0 {
        lemma_no_colon_counts(s, n - 1);
    }
}

/// An IPv6-shaped segment holds a colon.
proof fn lemma_ipv6_has_colon(s: Seq<u8>)
    requires
        crate::scan::spec_looks_like_ipv6(s),
    ensures
        exists|m: int| 0 <= m < s.len() && #[trigger] s[m] == 58,
{
    if forall|m: int| 0 <= m < s.len() ==> #[trigger] s[m] != 58 {
        lemma_no_colon_counts(s, s.len() as int);
    }
}

/// During the IPv6 pass at `i`, each span of `acc` on `row` colours, and is a
/// URL span, spans a quad candidate, or ends before `i`.
pub open spec fn v6_shape(acc: Seq<Highlight>, t: Seq<char>, b: Seq<u8>, row: u16, cands: Seq<(usize, usize)>, i: int) -> bool {
    forall|x: int|
        0 <= x < acc.len() && (#[trigger] acc[x]).row == row ==> colours(acc[x]) && (url_ok(t, b, acc[x])
            || (exists|j: int| j < cands.len() && spans_quad(acc[x], cands, j)) || (acc[x].end_col as int) < i)
}

/// An IPv6 segment not glued to a word that starts on a coloured cell lies
/// wholly on coloured cells (inside the URL that colours its start).
proof fn lemma_dominated_seg_coloured(
    acc: Seq<Highlight>,
    t: Seq<char>,
    b: Seq<u8>,
    row: u16,
    cands: Seq<(usize, usize)>,
    i: int,
    c: int,
)
    requires
        b == proj_seq(t),
        t.len() <= 65536,
        quads_ok(b, cands),
        v6_shape(acc, t, b, row, cands, i),
        0 <= i < b.len(),
        crate::runs::spec_hexcolon(b[i]),
        i > 0 ==> !crate::runs::spec_hexcolon(b[i - 1]),
        ({
            let j = crate::runs::run_end(b, i, crate::runs::Class::HexColon);
            let glued = (i > 0 && (crate::ascii::spec_is_word_byte(b[i - 1]) || b[i - 1] == 46))
                || (j < b.len() && crate::ascii::spec_is_word_byte(b[j]));
            let s2 = if j - i >= 2 && b[i] == 58 && b[i + 1] != 58 { i + 1 } else { i };
            let e2 = if j - s2 >= 2 && b[j - 1] == 58 && b[j - 2] != 58 { j - 1 } else { j };
            &&& !glued
            &&& crate::scan::spec_looks_like_ipv6(b.subrange(s2, e2))
            &&& coloured(acc, row, s2 as u16)
            &&& s2 <= c < e2
        }),
    ensures
        coloured(acc, row, c as u16),
{
    crate::runs::lemma_run_end(b, i, crate::runs::Class::HexColon);
    let j = crate::runs::run_end(b, i, crate::runs::Class::HexColon);
    let s2 = if j - i >= 2 && b[i] == 58 && b[i + 1] != 58 { i + 1 } else { i };
    let e2 = if j - s2 >= 2 && b[j - 1] == 58 && b[j - 2] != 58 { j - 1 } else { j };
    let seg = b.subrange(s2, e2);
    let x = choose|x: int| 0 <= x < acc.len() && colours(#[trigger] acc[x]) && covers(acc[x], row, s2 as u16);
    let d = acc[x];
    if url_ok(t, b, d) {
        assert forall|m: int| s2 <= m < e2 implies !spec_is_whitespace(#[trigger] t[m]) && t[m] != '\0' by {
            lemma_proj_not_blank(t, m);
        }
        lemma_inside_url(t, b, d, s2, e2);
        assert(covers(acc[x], row, c as u16));
    } else if exists|q: int| q < cands.len() && spans_quad(d, cands, q) {
        let q = choose|q: int| q < cands.len() && spans_quad(d, cands, q);
        assert(quad_ok(b, cands[q]));
        let qs = cands[q].0 as int;
        let qe = cands[q].1 as int;
        let e1 = crate::scan::digit_run_end(b, qs);
        if i > qs {
            assert(b[i - 1] == 46 || crate::ascii::spec_is_digit(b[i - 1]));
        } else {
            assert(j == e1) by {
                if j < e1 {
                    assert(crate::ascii::spec_is_digit(b[j]));
                }
                if j > e1 {
                    assert(crate::runs::in_class(crate::runs::Class::HexColon, b[e1]));
                }
            }
            lemma_ipv6_has_colon(seg);
            let m = choose|m: int| 0 <= m < seg.len() && #[trigger] seg[m] == 58;
            assert(seg[m] == b[s2 + m]);
            assert(crate::ascii::spec_is_digit(b[s2 + m]));
        }
    } else {
    }
}

proof fn lemma_v6_onoff(
    t: Seq<char>,
    b: Seq<u8>,
    row: u16,
    cands: Seq<(usize, usize)>,
    i: int,
    a1: Seq<Highlight>,
    a2: Seq<Highlight>,
    classes: PrivacyClasses,
)
    requires
        b == proj_seq(t),
        t.len() <= 65536,
        quads_ok(b, cands),
        0 <= i,
        same_colours(a1, a2),
        v6_shape(a1, t, b, row, cands, i),
        v6_shape(a2, t, b, row, cands, i),
        0 < i < b.len() && crate::runs::spec_hexcolon(b[i]) ==> !crate::runs::spec_hexcolon(b[i - 1]),
    ensures
        same_colours(v6_pass(b, row, i, a1, true, classes), v6_pass(b, row, i, a2, false, classes)),
    decreases b.len() - i,
{
    if i < b.len() {
        if !crate::runs::spec_hexcolon(b[i]) {
            assert(v6_shape(a1, t, b, row, cands, i + 1));
            assert(v6_shape(a2, t, b, row, cands, i + 1));
            lemma_v6_onoff(t, b, row, cands, i + 1, a1, a2, classes);
        } else {
            crate::runs::lemma_run_end(b, i, crate::runs::Class::HexColon);
            let j = crate::runs::run_end(b, i, crate::runs::Class::HexColon);
            let glued = (i > 0 && (crate::ascii::spec_is_word_byte(b[i - 1]) || b[i - 1] == 46))
                || (j < b.len() && crate::ascii::spec_is_word_byte(b[j]));
            let s2 = if j - i >= 2 && b[i] == 58 && b[i + 1] != 58 { i + 1 } else { i };
            let e2 = if j - s2 >= 2 && b[j - 1] == 58 && b[j - 2] != 58 { j - 1 } else { j };
            let seg = b.subrange(s2, e2);
            let on = class_on(classes, crate::ipv6::spec_ipv6_local_bytes(seg));
            lemma_same_colours_coloured(a1, a2, row, s2 as u16);
            let kind = if on { HighlightKind::Ip } else { HighlightKind::VersionQuad };
            let h = hl(row, s2, e2 - 1, HighlightColor::Ansi(5), kind);
            let ok = !glued && crate::scan::spec_looks_like_ipv6(seg);
            let dom = coloured(a2, row, s2 as u16);
            if ok {
                assert(s2 < e2);
            }
            if ok && !dom {
                lemma_same_colours_push(a1, a2, h);
                assert(v6_shape(a1.push(h), t, b, row, cands, j)) by {
                    assert forall|x: int| 0 <= x < a1.push(h).len() && (#[trigger] a1.push(h)[x]).row == row implies colours(a1.push(h)[x]) && (url_ok(t, b, a1.push(h)[x])
                        || (exists|q: int| q < cands.len() && spans_quad(a1.push(h)[x], cands, q)) || (a1.push(h)[x].end_col as int) < j) by {
                        if x < a1.len() {
                            assert(a1.push(h)[x] == a1[x]);
                        }
                    }
                }
                assert(v6_shape(a2.push(h), t, b, row, cands, j)) by {
                    assert forall|x: int| 0 <= x < a2.push(h).len() && (#[trigger] a2.push(h)[x]).row == row implies colours(a2.push(h)[x]) && (url_ok(t, b, a2.push(h)[x])
                        || (exists|q: int| q < cands.len() && spans_quad(a2.push(h)[x], cands, q)) || (a2.push(h)[x].end_col as int) < j) by {
                        if x < a2.len() {
                            assert(a2.push(h)[x] == a2[x]);
                        }
                    }
                }
                lemma_v6_onoff(t, b, row, cands, j, a1.push(h), a2.push(h), classes);
            } else if ok && dom && on {
                assert(same_colours(a1.push(h), a2)) by {
                    assert forall|r: u16, c: u16| #[trigger] first_colour(a1.push(h), r, c) == first_colour(a2, r, c) by {
                        lemma_first_colour_push(a1, h, r, c);
                        assert(first_colour(a1, r, c) == first_colour(a2, r, c));
                        if covers(h, r, c) {
                            lemma_dominated_seg_coloured(a2, t, b, row, cands, i, c as int);
                            lemma_coloured_is_first_colour(a2, row, c);
                        }
                    }
                }
                assert(v6_shape(a1.push(h), t, b, row, cands, j)) by {
                    assert forall|x: int| 0 <= x < a1.push(h).len() && (#[trigger] a1.push(h)[x]).row == row implies colours(a1.push(h)[x]) && (url_ok(t, b, a1.push(h)[x])
                        || (exists|q: int| q < cands.len() && spans_quad(a1.push(h)[x], cands, q)) || (a1.push(h)[x].end_col as int) < j) by {
                        if x < a1.len() {
                            assert(a1.push(h)[x] == a1[x]);
                        }
                    }
                }
                assert(v6_shape(a2, t, b, row, cands, j));
                lemma_v6_onoff(t, b, row, cands, j, a1.push(h), a2, classes);
            } else {
                assert(v6_shape(a1, t, b, row, cands, j));
                assert(v6_shape(a2, t, b, row, cands, j));
                lemma_v6_onoff(t, b, row, cands, j, a1, a2, classes);
            }
        }
    }
}

proof fn lemma_same_colours_trans(a: Seq<Highlight>, m: Seq<Highlight>, c: Seq<Highlight>)
    requires
        same_colours(a, m),
        same_colours(m, c),
    ensures
        same_colours(a, c),
{
    assert forall|r: u16, col: u16| #[trigger] first_colour(a, r, col) == first_colour(c, r, col) by {
        assert(first_colour(a, r, col) == first_colour(m, r, col));
        assert(first_colour(m, r, col) == first_colour(c, r, col));
    }
}

proof fn lemma_detect_row_onoff(
    cols: Seq<(u16, char)>,
    row: u16,
    w: Option<u16>,
    a1: Seq<Highlight>,
    a2: Seq<Highlight>,
    carry: Option<u16>,
    terms: Seq<Seq<char>>,
    classes: PrivacyClasses,
)
    requires
        same_colours(a1, a2),
        forall|x: int| 0 <= x < a1.len() ==> (#[trigger] a1[x]).row != row,
        forall|x: int| 0 <= x < a2.len() ==> (#[trigger] a2[x]).row != row,
    ensures
        same_colours(
            detect_row(cols, row, w, a1, carry, true, terms, classes).0,
            detect_row(cols, row, w, a2, carry, false, terms, classes).0,
        ),
        detect_row(cols, row, w, a1, carry, true, terms, classes).1 == detect_row(cols, row, w, a2, carry, false, terms, classes).1,
{
    let t = spec_row_text(cols);
    let b = proj_seq(t);
    crate::highlight::lemma_row_text_len(cols);
    let claimed = carry == Some(crate::detect::prev_row(row));
    lemma_url_row_onoff(t, b, row, w, claimed, a1, a2);
    let (u1, c1) = url_row(t, b, row, w, claimed, a1);
    let (u2, c2) = url_row(t, b, row, w, claimed, a2);
    let cands = quad_scan(b, 0, seq![]);
    lemma_quad_scan_props(b, 0, seq![]);
    assert(v4_shape(u1, t, b, row, cands, 0)) by {
        assert forall|x: int| 0 <= x < u1.len() && (#[trigger] u1[x]).row == row implies colours(u1[x]) && (url_ok(t, b, u1[x])
            || exists|j: int| j < 0 && spans_quad(u1[x], cands, j)) by {
            if x < a1.len() {
                assert(u1[x] == a1[x]);
            }
        }
    }
    assert(v4_shape(u2, t, b, row, cands, 0)) by {
        assert forall|x: int| 0 <= x < u2.len() && (#[trigger] u2[x]).row == row implies colours(u2[x]) && (url_ok(t, b, u2[x])
            || exists|j: int| j < 0 && spans_quad(u2[x], cands, j)) by {
            if x < a2.len() {
                assert(u2[x] == a2[x]);
            }
        }
    }
    lemma_v4_onoff(t, b, row, cands, 0, u1, u2, terms, classes);
    let v1 = v4_pass(t, b, row, cands, 0, u1, true, terms, classes);
    let v2 = v4_pass(t, b, row, cands, 0, u2, false, terms, classes);
    assert(v6_shape(v1, t, b, row, cands, 0));
    assert(v6_shape(v2, t, b, row, cands, 0));
    lemma_v6_onoff(t, b, row, cands, 0, v1, v2, classes);
    let x1 = v6_pass(b, row, 0, v1, true, classes);
    let x2 = v6_pass(b, row, 0, v2, false, classes);
    let m4 = if classes.usernames { host_user_pass(b, row, 0, x1) } else { x1 };
    let m5 = if classes.usernames { user_dir_pass(b, row, 0, m4) } else { m4 };
    let m6 = if terms.len() > 0 { known_host_pass(t, b, row, terms, 0, m5) } else { m5 };
    if classes.usernames {
        lemma_host_user(b, row, 0, x1);
        lemma_user_dir(b, row, 0, m4);
    }
    assert(adds_markers(x1, m4));
    assert(adds_markers(m4, m5));
    lemma_markers_trans(x1, m4, m5);
    if terms.len() > 0 {
        lemma_known_host(t, b, row, terms, 0, m5);
    }
    assert(adds_markers(m5, m6));
    lemma_markers_trans(x1, m5, m6);
    lemma_markers_keep_colours(x1, m6);
    lemma_same_colours_trans(m6, x1, x2);
    lemma_path_colours(b, row, 0, m6, x2);
    lemma_number_colours(b, row, 0, path_pass(b, row, 0, m6), path_pass(b, row, 0, x2));
}

/// Every span of `a` lies on one of the first `k` scanned rows.
pub open spec fn on_rows(a: Seq<Highlight>, rows: Seq<ScanRow>, k: int) -> bool {
    forall|x: int| 0 <= x < a.len() ==> exists|j: int| 0 <= j < k && (#[trigger] a[x]).row == (#[trigger] rows[j]).row
}

/// No two scanned rows carry the same row number.
pub open spec fn distinct_rows(rows: Seq<ScanRow>) -> bool {
    forall|i: int, j: int| 0 <= i < j < rows.len() ==> (#[trigger] rows[i]).row != (#[trigger] rows[j]).row
}

proof fn lemma_on_rows_step(
    acc: Seq<Highlight>,
    res: Seq<Highlight>,
    rows: Seq<ScanRow>,
    k: int,
)
    requires
        0 <= k < rows.len(),
        on_rows(acc, rows, k),
        stays(acc, res, rows[k].row, spec_row_text(rows[k].cols@).len() as int),
    ensures
        on_rows(res, rows, k + 1),
{
    assert forall|x: int| 0 <= x < res.len() implies exists|j: int| 0 <= j < k + 1 && (#[trigger] res[x]).row == (#[trigger] rows[j]).row by {
        if x < acc.len() {
            assert(res[x] == acc[x]);
            let j = choose|j: int| 0 <= j < k && acc[x].row == rows[j].row;
            assert(0 <= j < k + 1 && res[x].row == rows[j].row);
        } else {
            assert(in_row(res[x], rows[k].row, spec_row_text(rows[k].cols@).len() as int));
            assert(res[x].row == rows[k].row);
        }
    }
}

proof fn lemma_detect_from_onoff(
    rows: Seq<ScanRow>,
    k: int,
    a1: Seq<Highlight>,
    a2: Seq<Highlight>,
    carry: Option<u16>,
    terms: Seq<Seq<char>>,
    classes: PrivacyClasses,
)
    requires
        0 <= k <= rows.len(),
        distinct_rows(rows),
        same_colours(a1, a2),
        on_rows(a1, rows, k),
        on_rows(a2, rows, k),
    ensures
        same_colours(
            detect_from(rows, k, a1, carry, true, terms, classes),
            detect_from(rows, k, a2, carry, false, terms, classes),
        ),
    decreases rows.len() - k,
{
    if k < rows.len() {
        let row = rows[k].row;
        assert forall|x: int| 0 <= x < a1.len() implies (#[trigger] a1[x]).row != row by {
            let j = choose|j: int| 0 <= j < k && a1[x].row == rows[j].row;
            assert(rows[j].row != rows[k].row);
        }
        assert forall|x: int| 0 <= x < a2.len() implies (#[trigger] a2[x]).row != row by {
            let j = choose|j: int| 0 <= j < k && a2[x].row == rows[j].row;
            assert(rows[j].row != rows[k].row);
        }
        lemma_detect_row_onoff(rows[k].cols@, row, rows[k].wraps_at, a1, a2, carry, terms, classes);
        let (r1, c1) = detect_row(rows[k].cols@, row, rows[k].wraps_at, a1, carry, true, terms, classes);
        let (r2, c2) = detect_row(rows[k].cols@, row, rows[k].wraps_at, a2, carry, false, terms, classes);
        lemma_detect_row_stays(rows[k].cols@, row, rows[k].wraps_at, a1, carry, true, terms, classes);
        lemma_detect_row_stays(rows[k].cols@, row, rows[k].wraps_at, a2, carry, false, terms, classes);
        lemma_on_rows_step(a1, r1, rows, k);
        lemma_on_rows_step(a2, r2, rows, k);
        lemma_detect_from_onoff(rows, k + 1, r1, r2, c1, terms, classes);
    }
}

/// Switching Privacy Mode changes masking only, never colouring: with the
/// same rows (one entry per row number), saved terms and classes, every cell
/// is coloured the same with Privacy Mode on as with it off. (Two entries
/// with one row number can differ: a Privacy Mode marker from the first can
/// cover the start of an address in the second.)
pub proof fn law_privacy_mode_changes_no_colour(
    rows: Seq<ScanRow>,
    terms: Seq<Seq<char>>,
    classes: PrivacyClasses,
)
    requires
        distinct_rows(rows),
    ensures
        forall|r: u16, c: u16|
            #[trigger] first_colour(spec_detect(rows, true, terms, classes), r, c) == first_colour(
                spec_detect(rows, false, terms, classes),
                r,
                c,
            ),
{
    lemma_detect_from_onoff(rows, 0, seq![], seq![], None, terms, classes);
    let on = spec_detect(rows, true, terms, classes);
    let off = spec_detect(rows, false, terms, classes);
    assert(same_colours(on, off));
}

} // verus!

verus! {

/// Every span the URL scan adds from `i` is a `Url` span inside the row,
/// and one that does not end at the wrap margin ends on a character that
/// is not sentence punctuation.
proof fn lemma_url_scan_ends(
    t: Seq<char>,
    row: u16,
    w: Option<u16>,
    i: int,
    acc: Seq<Highlight>,
    carry: bool,
)
    requires
        t.len() <= 65536,
    ensures
        extends(acc, url_scan(t, proj_seq(t), row, w, i, acc, carry).0),
        forall|k: int|
            acc.len() <= k < url_scan(t, proj_seq(t), row, w, i, acc, carry).0.len() ==> {
                let h = #[trigger] url_scan(t, proj_seq(t), row, w, i, acc, carry).0[k];
                &&& h.kind == HighlightKind::Url
                &&& h.end_col < t.len()
                &&& Some(h.end_col) != w ==> !crate::links::closes_sentence(t[h.end_col as int])
            },
    decreases t.len() - i,
{
    let b = proj_seq(t);
    if 0 <= i < t.len() {
        if crate::detect::url_start(t, i) {
            crate::detect::lemma_url_start_chars(t, i);
            crate::runs::lemma_token_end(t, i);
            let end = crate::runs::token_end(t, i);
            crate::links::lemma_url_cut(t, i);
            let carries_on = w == Some((end - 1) as u16);
            crate::links::lemma_trim_tail_cut(b, end, i);
            let cut = if carries_on { end } else { crate::runs::trim_tail(b, end, i) };
            let h = hl(row, i, cut - 1, HighlightColor::Ansi(4), HighlightKind::Url);
            assert(h.end_col == cut - 1);
            if !carries_on {
                crate::links::lemma_proj_closes(t[cut - 1]);
            }
            lemma_url_scan_ends(t, row, w, end, acc.push(h), carry || carries_on);
            let res = url_scan(t, b, row, w, i, acc, carry).0;
            assert(res == url_scan(t, b, row, w, end, acc.push(h), carry || carries_on).0);
            assert(res[acc.len() as int] == h);
        } else {
            lemma_url_scan_ends(t, row, w, i + 1, acc, carry);
        }
    }
}

/// The URL pass of a row never lets a highlighted URL end in sentence
/// punctuation: each `Url` span it adds ends on a character other than
/// `)`, `]`, `>`, `,`, `.` and `;`, unless the span runs to the row's wrap
/// margin and continues on the next row. `(docs at
/// https://example.com/guide)` highlights the URL without the `)`.
pub proof fn law_url_spans_stop_before_trailing_punctuation(
    cols: Seq<(u16, char)>,
    row: u16,
    wraps_at: Option<u16>,
    claimed: bool,
    acc: Seq<Highlight>,
)
    ensures
        ({
            let t = spec_row_text(cols);
            let res = url_row(t, proj_seq(t), row, wraps_at, claimed, acc).0;
            &&& extends(acc, res)
            &&& forall|k: int|
                acc.len() <= k < res.len() ==> {
                    let h = #[trigger] res[k];
                    &&& h.kind == HighlightKind::Url
                    &&& h.end_col < t.len()
                    &&& Some(h.end_col) != wraps_at ==> !crate::links::closes_sentence(
                        t[h.end_col as int],
                    )
                }
        }),
{
    let t = spec_row_text(cols);
    let b = proj_seq(t);
    crate::highlight::lemma_row_text_len(cols);
    if claimed && crate::runs::token_end(t, 0) > 0 {
        crate::runs::lemma_token_end(t, 0);
        let end = crate::runs::token_end(t, 0);
        let carries_on = wraps_at == Some((end - 1) as u16);
        crate::links::lemma_trim_tail_cut(b, end, 0);
        let cut = if carries_on { end } else { crate::runs::trim_tail(b, end, 0) };
        if cut == 0 {
            lemma_url_scan_ends(t, row, wraps_at, end, acc, carries_on);
        } else {
            let h = hl(row, 0, cut - 1, HighlightColor::Ansi(4), HighlightKind::Url);
            if !carries_on {
                crate::links::lemma_proj_closes(t[cut - 1]);
            }
            lemma_url_scan_ends(t, row, wraps_at, end, acc.push(h), carries_on);
            let res = url_row(t, b, row, wraps_at, claimed, acc).0;
            assert(res[acc.len() as int] == h);
        }
    } else {
        lemma_url_scan_ends(t, row, wraps_at, 0, acc, false);
    }
}

} // verus!

verus! {

/// The IPv6 pass from `i` only adds address spans, each covering an
/// IPv6-shaped segment of the row, and the kind of each follows the class
/// of its address: `Ip` (masked under Privacy Mode) exactly when the
/// private-IPs class is on for a local address (loopback, `fe80::/10`,
/// `fc00::/7`) or the public-IPs class is on for any other; `VersionQuad`
/// (coloured, never masked) otherwise.
pub proof fn law_ipv6_kind_follows_address_class(
    b: Seq<u8>,
    row: u16,
    i: int,
    acc: Seq<Highlight>,
    privacy: bool,
    classes: PrivacyClasses,
)
    requires
        b.len() <= 65536,
    ensures
        extends(acc, v6_pass(b, row, i, acc, privacy, classes)),
        forall|k: int|
            acc.len() <= k < v6_pass(b, row, i, acc, privacy, classes).len() ==> {
                let h = #[trigger] v6_pass(b, row, i, acc, privacy, classes)[k];
                let seg = b.subrange(h.start_col as int, h.end_col + 1);
                &&& h.row == row
                &&& h.start_col <= h.end_col < b.len()
                &&& crate::scan::spec_looks_like_ipv6(seg)
                &&& (h.kind == HighlightKind::Ip || h.kind == HighlightKind::VersionQuad)
                &&& (h.kind == HighlightKind::Ip <==> if crate::ipv6::spec_ipv6_local_bytes(seg) {
                    classes.private_ips
                } else {
                    classes.public_ips
                })
            },
    decreases b.len() - i,
{
    let res = v6_pass(b, row, i, acc, privacy, classes);
    if 0 <= i < b.len() {
        if !crate::runs::spec_hexcolon(b[i]) {
            law_ipv6_kind_follows_address_class(b, row, i + 1, acc, privacy, classes);
        } else {
            crate::runs::lemma_run_end(b, i, crate::runs::Class::HexColon);
            let j = crate::runs::run_end(b, i, crate::runs::Class::HexColon);
            let glued = (i > 0 && (crate::ascii::spec_is_word_byte(b[i - 1]) || b[i - 1] == 46))
                || (j < b.len() && crate::ascii::spec_is_word_byte(b[j]));
            let s2 = if j - i >= 2 && b[i] == 58 && b[i + 1] != 58 { i + 1 } else { i };
            let e2 = if j - s2 >= 2 && b[j - 1] == 58 && b[j - 2] != 58 { j - 1 } else { j };
            let seg = b.subrange(s2, e2);
            let on = class_on(classes, crate::ipv6::spec_ipv6_local_bytes(seg));
            if !glued && crate::scan::spec_looks_like_ipv6(seg) && (!coloured(acc, row, s2 as u16)
                || (privacy && on)) {
                let h = hl(
                    row,
                    s2,
                    e2 - 1,
                    HighlightColor::Ansi(5),
                    if on {
                        HighlightKind::Ip
                    } else {
                        HighlightKind::VersionQuad
                    },
                );
                if e2 <= s2 {
                    assert(seg.len() == 0);
                    lemma_ipv6_has_colon(seg);
                }
                assert(h.start_col == s2 && h.end_col == e2 - 1);
                assert(b.subrange(h.start_col as int, h.end_col + 1) =~= seg);
                law_ipv6_kind_follows_address_class(b, row, j, acc.push(h), privacy, classes);
                assert(res[acc.len() as int] == h);
            } else {
                law_ipv6_kind_follows_address_class(b, row, j, acc, privacy, classes);
            }
        }
    }
}

} // verus!

verus! {

/// The IPv4 pass only adds address spans, each covering one candidate of
/// the row, and the kind of each follows its address: `Ip` (masked under
/// Privacy Mode) exactly when the candidate is a saved hostname, or the
/// private-IPs class is on for a private / loopback address, or the
/// public-IPs class is on for any other; `VersionQuad` otherwise.
pub proof fn law_ipv4_kind_follows_address_class(
    t: Seq<char>,
    b: Seq<u8>,
    row: u16,
    cands: Seq<(usize, usize)>,
    k: int,
    acc: Seq<Highlight>,
    privacy: bool,
    terms: Seq<Seq<char>>,
    classes: PrivacyClasses,
)
    requires
        0 <= k,
        b.len() <= 65536,
        forall|q: int| 0 <= q < cands.len() ==> (#[trigger] cands[q]).0 < cands[q].1 <= b.len(),
    ensures
        extends(acc, v4_pass(t, b, row, cands, k, acc, privacy, terms, classes)),
        forall|m: int|
            acc.len() <= m < v4_pass(t, b, row, cands, k, acc, privacy, terms, classes).len() ==> {
                let h = #[trigger] v4_pass(t, b, row, cands, k, acc, privacy, terms, classes)[m];
                let s = h.start_col as int;
                let e = h.end_col + 1;
                &&& h.row == row
                &&& exists|q: int| k <= q < cands.len() && cands[q].0 == s && cands[q].1 == e
                &&& (h.kind == HighlightKind::Ip || h.kind == HighlightKind::VersionQuad)
                &&& (h.kind == HighlightKind::Ip <==> (term_hit(terms, t.subrange(s, e)) || if spec_private_v4(
                    b.subrange(s, e),
                ) {
                    classes.private_ips
                } else {
                    classes.public_ips
                }))
            },
    decreases cands.len() - k,
{
    if k < cands.len() {
        let s = cands[k].0 as int;
        let e = cands[k].1 as int;
        let dominated = crate::highlight::covered(acc, row, s as u16);
        let masked = term_hit(terms, t.subrange(s, e)) || class_on(
            classes,
            spec_private_v4(b.subrange(s, e)),
        );
        let res = v4_pass(t, b, row, cands, k, acc, privacy, terms, classes);
        if dominated && !(privacy && masked) {
            law_ipv4_kind_follows_address_class(t, b, row, cands, k + 1, acc, privacy, terms, classes);
        } else {
            let h = hl(
                row,
                s,
                e - 1,
                HighlightColor::Ansi(5),
                if masked {
                    HighlightKind::Ip
                } else {
                    HighlightKind::VersionQuad
                },
            );
            assert(h.start_col == s && h.end_col == e - 1);
            law_ipv4_kind_follows_address_class(
                t,
                b,
                row,
                cands,
                k + 1,
                acc.push(h),
                privacy,
                terms,
                classes,
            );
            assert(res[acc.len() as int] == h);
            assert(cands[k].0 == s && cands[k].1 == e);
        }
    }
}

} // verus!

verus! {

/// An address span of a row whose text holds a colon (an IPv6 literal) is
/// `Ip` exactly when the class of its address is on: private IPs for a
/// local address, public IPs for any other.
pub open spec fn ipv6_span_ok(h: Highlight, b: Seq<u8>, classes: PrivacyClasses) -> bool {
    let seg = b.subrange(h.start_col as int, h.end_col + 1);
    ((h.kind == HighlightKind::Ip || h.kind == HighlightKind::VersionQuad) && h.start_col
        <= h.end_col < b.len() && (exists|m: int| 0 <= m < seg.len() && #[trigger] seg[m] == 58))
        ==> (h.kind == HighlightKind::Ip <==> if crate::ipv6::spec_ipv6_local_bytes(seg) {
        classes.private_ips
    } else {
        classes.public_ips
    })
}

pub open spec fn adds_ipv6_ok(acc: Seq<Highlight>, res: Seq<Highlight>, b: Seq<u8>, classes: PrivacyClasses) -> bool {
    extends(acc, res) && forall|k: int|
        acc.len() <= k < res.len() ==> ipv6_span_ok(#[trigger] res[k], b, classes)
}

proof fn lemma_adds_ipv6_ok_trans(
    a: Seq<Highlight>,
    m: Seq<Highlight>,
    c: Seq<Highlight>,
    b: Seq<u8>,
    classes: PrivacyClasses,
)
    requires
        adds_ipv6_ok(a, m, b, classes),
        adds_ipv6_ok(m, c, b, classes),
    ensures
        adds_ipv6_ok(a, c, b, classes),
{
    assert forall|k: int| a.len() <= k < c.len() implies ipv6_span_ok(#[trigger] c[k], b, classes) by {
        if k < m.len() {
            assert(c[k] == m[k]);
        }
    }
}

/// Spans that are neither `Ip` nor `VersionQuad` satisfy the rule trivially.
proof fn lemma_other_kinds_ipv6_ok(acc: Seq<Highlight>, res: Seq<Highlight>, b: Seq<u8>, classes: PrivacyClasses)
    requires
        extends(acc, res),
        forall|k: int|
            acc.len() <= k < res.len() ==> (#[trigger] res[k]).kind != HighlightKind::Ip && res[k].kind
                != HighlightKind::VersionQuad,
    ensures
        adds_ipv6_ok(acc, res, b, classes),
{
}

/// The path pass adds `Path` spans only.
proof fn lemma_path_kind(b: Seq<u8>, row: u16, i: int, acc: Seq<Highlight>)
    ensures
        extends(acc, path_pass(b, row, i, acc)),
        forall|k: int|
            acc.len() <= k < path_pass(b, row, i, acc).len() ==> (#[trigger] path_pass(b, row, i, acc)[k]).kind
                == HighlightKind::Path,
    decreases b.len() - i,
{
    if 0 <= i < b.len() {
        if b[i] == 47 && !(i > 0 && crate::detect::path_glue(b[i - 1])) {
            crate::runs::lemma_run_end(b, i + 1, crate::runs::Class::Path);
            let j = crate::runs::run_end(b, i + 1, crate::runs::Class::Path);
            if j - i >= 3 {
                crate::runs::lemma_path_back(b, i, j);
                let j2 = crate::runs::path_back(b, i, j);
                if !coloured(acc, row, i as u16) && j2 - i >= 3 {
                    let h = hl(row, i, j2 - 1, HighlightColor::Ansi(6), HighlightKind::Path);
                    lemma_path_kind(b, row, j2, acc.push(h));
                    assert(path_pass(b, row, i, acc)[acc.len() as int] == h);
                } else {
                    lemma_path_kind(b, row, j2, acc);
                }
            } else {
                lemma_path_kind(b, row, i + 1, acc);
            }
        } else {
            lemma_path_kind(b, row, i + 1, acc);
        }
    }
}

/// The number pass adds `Number` spans only.
proof fn lemma_number_kind(b: Seq<u8>, row: u16, i: int, acc: Seq<Highlight>)
    ensures
        extends(acc, number_pass(b, row, i, acc)),
        forall|k: int|
            acc.len() <= k < number_pass(b, row, i, acc).len() ==> (#[trigger] number_pass(
                b,
                row,
                i,
                acc,
            )[k]).kind == HighlightKind::Number,
    decreases b.len() - i,
{
    if 0 <= i < b.len() {
        if !crate::detect::number_start(b, i) || (i > 0 && crate::ascii::spec_is_digit(b[i])
            && crate::ascii::spec_is_word_byte(b[i - 1])) {
            lemma_number_kind(b, row, i + 1, acc);
        } else {
            crate::detect::lemma_number_end(b, i);
            let j = crate::detect::number_end(b, i);
            if j < b.len() && crate::ascii::spec_is_word_byte(b[j]) {
                lemma_number_kind(b, row, j, acc);
            } else if !coloured(acc, row, i as u16) {
                let h = hl(row, i, j - 1, HighlightColor::Ansi(5), HighlightKind::Number);
                lemma_number_kind(b, row, j, acc.push(h));
                assert(number_pass(b, row, i, acc)[acc.len() as int] == h);
            } else {
                lemma_number_kind(b, row, j, acc);
            }
        }
    }
}

/// Markers are neither `Ip` nor `VersionQuad`.
proof fn lemma_markers_ipv6_ok(acc: Seq<Highlight>, res: Seq<Highlight>, b: Seq<u8>, classes: PrivacyClasses)
    requires
        adds_markers(acc, res),
    ensures
        adds_ipv6_ok(acc, res, b, classes),
{
    assert forall|k: int| acc.len() <= k < res.len() implies (#[trigger] res[k]).kind
        != HighlightKind::Ip && res[k].kind != HighlightKind::VersionQuad by {
        assert(spec_privacy_only(res[k].kind));
    }
}

/// Every span a row adds keeps the IPv6 class rule against that row's text.
proof fn lemma_detect_row_ipv6(
    cols: Seq<(u16, char)>,
    row: u16,
    w: Option<u16>,
    acc: Seq<Highlight>,
    carry: Option<u16>,
    privacy: bool,
    terms: Seq<Seq<char>>,
    classes: PrivacyClasses,
)
    ensures
        adds_ipv6_ok(
            acc,
            detect_row(cols, row, w, acc, carry, privacy, terms, classes).0,
            proj_seq(spec_row_text(cols)),
            classes,
        ),
{
    let t = spec_row_text(cols);
    let b = proj_seq(t);
    crate::highlight::lemma_row_text_len(cols);
    let claimed = carry == Some(crate::detect::prev_row(row));
    let (a1, c) = url_row(t, b, row, w, claimed, acc);
    law_url_spans_stop_before_trailing_punctuation(cols, row, w, claimed, acc);
    lemma_other_kinds_ipv6_ok(acc, a1, b, classes);
    let cands = quad_scan(b, 0, seq![]);
    lemma_quad_scan_props(b, 0, seq![]);
    let a2 = v4_pass(t, b, row, cands, 0, a1, privacy, terms, classes);
    law_ipv4_kind_follows_address_class(t, b, row, cands, 0, a1, privacy, terms, classes);
    assert forall|k: int| a1.len() <= k < a2.len() implies ipv6_span_ok(#[trigger] a2[k], b, classes) by {
        let h = a2[k];
        let q = choose|q: int|
            0 <= q < cands.len() && cands[q].0 == h.start_col as int && cands[q].1 == h.end_col + 1;
        assert(quad_ok(b, cands[q]));
        let seg = b.subrange(h.start_col as int, h.end_col + 1);
        assert forall|m: int| 0 <= m < seg.len() implies #[trigger] seg[m] != 58 by {
            assert(seg[m] == b[h.start_col + m]);
        }
    }
    let a3 = v6_pass(b, row, 0, a2, privacy, classes);
    law_ipv6_kind_follows_address_class(b, row, 0, a2, privacy, classes);
    let a4 = if privacy && classes.usernames { host_user_pass(b, row, 0, a3) } else { a3 };
    if privacy && classes.usernames {
        lemma_host_user(b, row, 0, a3);
        lemma_markers_ipv6_ok(a3, a4, b, classes);
    }
    let a5 = if privacy && classes.usernames { user_dir_pass(b, row, 0, a4) } else { a4 };
    if privacy && classes.usernames {
        lemma_user_dir(b, row, 0, a4);
        lemma_markers_ipv6_ok(a4, a5, b, classes);
    }
    let a6 = if privacy && terms.len() > 0 { known_host_pass(t, b, row, terms, 0, a5) } else { a5 };
    if privacy && terms.len() > 0 {
        lemma_known_host(t, b, row, terms, 0, a5);
        lemma_markers_ipv6_ok(a5, a6, b, classes);
    }
    let a7 = path_pass(b, row, 0, a6);
    lemma_path_kind(b, row, 0, a6);
    lemma_other_kinds_ipv6_ok(a6, a7, b, classes);
    let a8 = number_pass(b, row, 0, a7);
    lemma_number_kind(b, row, 0, a7);
    lemma_other_kinds_ipv6_ok(a7, a8, b, classes);
    lemma_adds_ipv6_ok_trans(acc, a1, a2, b, classes);
    lemma_adds_ipv6_ok_trans(acc, a2, a3, b, classes);
    lemma_adds_ipv6_ok_trans(acc, a3, a4, b, classes);
    lemma_adds_ipv6_ok_trans(acc, a4, a5, b, classes);
    lemma_adds_ipv6_ok_trans(acc, a5, a6, b, classes);
    lemma_adds_ipv6_ok_trans(acc, a6, a7, b, classes);
    lemma_adds_ipv6_ok_trans(acc, a7, a8, b, classes);
}

/// Each span of `acc` that lies on the row number of one of `rows[..k]`
/// keeps the IPv6 class rule against that row's text.
pub open spec fn ipv6_rows_ok(acc: Seq<Highlight>, rows: Seq<ScanRow>, k: int, classes: PrivacyClasses) -> bool {
    forall|x: int, q: int|
        0 <= x < acc.len() && 0 <= q < k && (#[trigger] acc[x]).row == (#[trigger] rows[q]).row
            ==> ipv6_span_ok(acc[x], proj_seq(spec_row_text(rows[q].cols@)), classes)
}

proof fn lemma_detect_from_ipv6(
    rows: Seq<ScanRow>,
    k: int,
    acc: Seq<Highlight>,
    carry: Option<u16>,
    privacy: bool,
    terms: Seq<Seq<char>>,
    classes: PrivacyClasses,
)
    requires
        0 <= k <= rows.len(),
        distinct_rows(rows),
        on_rows(acc, rows, k),
        ipv6_rows_ok(acc, rows, k, classes),
    ensures
        ipv6_rows_ok(detect_from(rows, k, acc, carry, privacy, terms, classes), rows, rows.len() as int, classes),
    decreases rows.len() - k,
{
    if k < rows.len() {
        let row = rows[k].row;
        let (res, c) = detect_row(rows[k].cols@, row, rows[k].wraps_at, acc, carry, privacy, terms, classes);
        lemma_detect_row_ipv6(rows[k].cols@, row, rows[k].wraps_at, acc, carry, privacy, terms, classes);
        lemma_detect_row_stays(rows[k].cols@, row, rows[k].wraps_at, acc, carry, privacy, terms, classes);
        lemma_on_rows_step(acc, res, rows, k);
        assert forall|x: int, q: int|
            0 <= x < res.len() && 0 <= q < k + 1 && (#[trigger] res[x]).row == (#[trigger] rows[q]).row
            implies ipv6_span_ok(res[x], proj_seq(spec_row_text(rows[q].cols@)), classes) by {
            if x < acc.len() {
                assert(res[x] == acc[x]);
                if q == k {
                    let j = choose|j: int| 0 <= j < k && acc[x].row == rows[j].row;
                    assert(rows[j].row != rows[k].row);
                }
            } else {
                assert(in_row(res[x], row, spec_row_text(rows[k].cols@).len() as int));
                if q < k {
                    assert(rows[q].row != rows[k].row);
                }
            }
        }
        lemma_detect_from_ipv6(rows, k + 1, res, c, privacy, terms, classes);
    }
}

/// What the scanner reports for an IPv6 literal follows the class of its
/// address, whether or not Privacy Mode is on: with one entry per row
/// number, every `Ip` / `VersionQuad` span whose text in its row holds a
/// colon is `Ip` (masked under Privacy Mode) exactly when the private-IPs
/// class is on for a local address (loopback, `fe80::/10`, `fc00::/7`) or
/// the public-IPs class is on for any other. So `fe80::1` with only public
/// IPs enabled stays a coloured, unmasked `VersionQuad`.
pub proof fn law_detected_ipv6_follows_address_class(
    rows: Seq<ScanRow>,
    privacy: bool,
    terms: Seq<Seq<char>>,
    classes: PrivacyClasses,
)
    requires
        distinct_rows(rows),
    ensures
        forall|x: int, q: int|
            0 <= x < spec_detect(rows, privacy, terms, classes).len() && 0 <= q < rows.len() && (
            #[trigger] spec_detect(rows, privacy, terms, classes)[x]).row == (#[trigger] rows[q]).row
                ==> ipv6_span_ok(
                spec_detect(rows, privacy, terms, classes)[x],
                proj_seq(spec_row_text(rows[q].cols@)),
                classes,
            ),
{
    let empty: Seq<Highlight> = seq![];
    lemma_detect_from_ipv6(rows, 0, empty, None, privacy, terms, classes);
}

} // verus!

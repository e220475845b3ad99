//! What the managed block's text format guarantees: reading back what was
//! rendered gives the same servers.
use vstd::prelude::*;
use crate::model::{SiteView, default_site};
use crate::caddyfile::{
    ParseState, step, run_lines, finish, initial_state, parse_block, lines_text, site_lines,
    config_lines, render_config_text, apply_directive, is_site_header, after, header_address,
    zone_name, encoders, render_document, split_text, begin_marker, end_marker, loaded_config,
};
use crate::text::{
    is_ws, trim, lemma_trim_padded, starts_with, trim_end_char, char_back, first_word, ws_end,
    word_end, word_at, decimal, lemma_parse_decimal, lemma_decimal, is_digit, trim_start, trim_end,
    contains, occurs_at, find_from, lemma_ws_end_bounds, lemma_ws_back_bounds, lemma_ws_end_from,
    lemma_ws_back_from,
};

verus! {

/// The state after feeding the lines `ls`, in order, to the parser.
pub open spec fn fold_steps(st: ParseState, ls: Seq<Seq<char>>) -> ParseState
    decreases ls.len(),
{
    if ls.len() == 0 {
        st
    } else {
        step(fold_steps(st, ls.drop_last()), ls.last())
    }
}

pub open spec fn no_newline(s: Seq<char>) -> bool {
    forall|i: int| 0 <= i < s.len() ==> s[i] != '\n'
}

proof fn lemma_fold_push(st: ParseState, ls: Seq<Seq<char>>, l: Seq<char>)
    ensures
        fold_steps(st, ls.push(l)) == step(fold_steps(st, ls), l),
{
    assert(ls.push(l).drop_last() =~= ls);
}

proof fn lemma_fold_concat(st: ParseState, a: Seq<Seq<char>>, b: Seq<Seq<char>>)
    ensures
        fold_steps(st, a + b) == fold_steps(fold_steps(st, a), b),
    decreases b.len(),
{
    if b.len() == 0 {
        assert(a + b =~= a);
    } else {
        lemma_fold_concat(st, a, b.drop_last());
        assert((a + b).drop_last() =~= a + b.drop_last());
        assert((a + b).last() == b.last());
    }
}

/// Walking over one line that ends at `e` feeds it to the parser.
proof fn lemma_walk(s: Seq<char>, a: int, i: int, e: int, st: ParseState)
    requires
        0 <= a <= i <= e < s.len(),
        forall|k: int| i <= k < e ==> s[k] != '\n',
        s[e] == '\n',
    ensures
        run_lines(s, a, i, st) == run_lines(s, e + 1, e + 1, step(st, s.subrange(a, e))),
    decreases e - i,
{
    if i < e {
        lemma_walk(s, a, i + 1, e, st);
    }
}

/// Walking over text made of whole lines feeds them to the parser in order.
proof fn lemma_run_text(s: Seq<char>, a: int, ls: Seq<Seq<char>>, st: ParseState)
    requires
        0 <= a,
        a + lines_text(ls).len() <= s.len(),
        s.subrange(a, a + lines_text(ls).len()) == lines_text(ls),
        forall|k: int| 0 <= k < ls.len() ==> no_newline(#[trigger] ls[k]),
    ensures
        run_lines(s, a, a, st) == run_lines(
            s,
            a + lines_text(ls).len(),
            a + lines_text(ls).len(),
            fold_steps(st, ls),
        ),
    decreases ls.len(),
{
    reveal_strlit("\n");
    if ls.len() > 0 {
        let prev = ls.drop_last();
        let l = ls.last();
        let tp = lines_text(prev);
        let t = lines_text(ls);
        assert(t == tp + l + "\n"@);
        assert(s.subrange(a, a + tp.len()) =~= tp) by {
            assert(s.subrange(a, a + tp.len()) =~= s.subrange(a, a + t.len()).subrange(0, tp.len() as int));
        }
        assert forall|k: int| 0 <= k < prev.len() implies no_newline(#[trigger] prev[k]) by {
            assert(prev[k] == ls[k]);
        }
        lemma_run_text(s, a, prev, st);
        let b = a + tp.len();
        let e = b + l.len();
        assert(no_newline(ls[ls.len() - 1]));
        assert forall|k: int| b <= k < e implies s[k] != '\n' by {
            assert(s[k] == s.subrange(a, a + t.len())[k - a]);
            assert(t[k - a] == l[k - b]);
        }
        assert(s[e] == '\n') by {
            assert(s[e] == s.subrange(a, a + t.len())[e - a]);
            assert(t[e - a] == '\n');
        }
        assert(s.subrange(b, e) =~= l) by {
            assert forall|k: int| 0 <= k < l.len() implies s.subrange(b, e)[k] == l[k] by {
                assert(s.subrange(b, e)[k] == s.subrange(a, a + t.len())[b + k - a]);
            }
        }
        lemma_walk(s, b, b, e, fold_steps(st, prev));
    }
}

/// Reading text made of whole lines is feeding the lines to the parser.
pub proof fn lemma_parse_lines(ls: Seq<Seq<char>>)
    requires
        forall|k: int| 0 <= k < ls.len() ==> no_newline(#[trigger] ls[k]),
    ensures
        parse_block(lines_text(ls)) == finish(fold_steps(initial_state(), ls)),
{
    let s = lines_text(ls);
    assert(s.subrange(0, s.len() as int) =~= s);
    lemma_run_text(s, 0, ls, initial_state());
}

// ---------------------------------------------------------------------------
// Trimming and prefixes of rendered lines
// ---------------------------------------------------------------------------

/// Nonempty text that starts and ends with a non-whitespace character.
pub open spec fn solid(s: Seq<char>) -> bool {
    s.len() > 0 && !is_ws(s[0]) && !is_ws(s.last())
}

/// Nonempty text without whitespace.
pub open spec fn single_word(s: Seq<char>) -> bool {
    s.len() > 0 && forall|i: int| 0 <= i < s.len() ==> !is_ws(#[trigger] s[i])
}

pub open spec fn all_ws(s: Seq<char>) -> bool {
    forall|i: int| 0 <= i < s.len() ==> is_ws(#[trigger] s[i])
}

proof fn lemma_trim_solid(pad: Seq<char>, x: Seq<char>)
    requires
        all_ws(pad),
        solid(x),
    ensures
        trim(pad + x) == x,
{
    let e = Seq::<char>::empty();
    lemma_trim_padded(pad, x, e);
    assert(pad + x + e =~= pad + x);
}

proof fn lemma_trim_empty()
    ensures
        trim(Seq::<char>::empty()) == Seq::<char>::empty(),
{
    let e = Seq::<char>::empty();
    assert(trim_start(e) =~= e);
    assert(trim_end(e) =~= e);
}

proof fn lemma_starts(x: Seq<char>, p: Seq<char>, rest: Seq<char>)
    requires
        x == p + rest,
    ensures
        starts_with(x, p),
        after(x, p) == rest,
{
    assert(x.take(p.len() as int) =~= p);
    assert(after(x, p) =~= rest);
}

proof fn lemma_not_starts(x: Seq<char>, p: Seq<char>, k: int)
    requires
        0 <= k < p.len(),
        k < x.len(),
        x[k] != p[k],
    ensures
        !starts_with(x, p),
{
    if starts_with(x, p) {
        assert(x.take(p.len() as int)[k] == x[k]);
    }
}

proof fn lemma_not_equal(x: Seq<char>, p: Seq<char>, k: int)
    requires
        0 <= k < p.len(),
        k < x.len(),
        x[k] != p[k],
    ensures
        x != p,
{
}

/// A rendered directive line: indentation, then text that the parser does
/// not take for a comment, a header or a closing brace.
proof fn lemma_step_directive(st: ParseState, pad: Seq<char>, x: Seq<char>)
    requires
        all_ws(pad),
        solid(x),
        x[0] != '#',
        !is_site_header(x),
        x != "}"@,
        (st.current is Some),
    ensures
        step(st, pad + x) == ({
            let r = apply_directive(st.current->0, x, st.in_rate_limit);
            ParseState { current: Some(r.0), in_rate_limit: r.1, ..st }
        }),
{
    lemma_trim_solid(pad, x);
}

/// A closing brace, indented or not, closes any open `rate_limit` block.
proof fn lemma_step_close(st: ParseState, pad: Seq<char>)
    requires
        all_ws(pad),
        (st.current is Some),
    ensures
        step(st, pad + "}"@) == (ParseState { in_rate_limit: false, ..st }),
{
    reveal_strlit("}");
    lemma_trim_solid(pad, "}"@);
}

/// An empty line changes nothing.
proof fn lemma_step_empty(st: ParseState)
    ensures
        step(st, Seq::<char>::empty()) == st,
{
    lemma_trim_empty();
}

proof fn lemma_indents()
    ensures
        all_ws("    "@),
        all_ws("        "@),
        all_ws("            "@),
        all_ws(Seq::<char>::empty()),
{
    reveal_strlit("    ");
    reveal_strlit("        ");
    reveal_strlit("            ");
}

// ---------------------------------------------------------------------------
// Each rendered line, read back
// ---------------------------------------------------------------------------

proof fn lemma_line_encode(st: ParseState, s: SiteView)
    requires
        (st.current is Some),
        s.encode_zstd || s.encode_gzip,
    ensures
        step(st, "    "@ + "encode "@ + encoders(s)) == (ParseState {
            current: Some(SiteView { encode_zstd: s.encode_zstd, encode_gzip: s.encode_gzip, ..st.current->0 }),
            ..st
        }),
{
    reveal_strlit("encode ");
    reveal_strlit("zstd gzip");
    reveal_strlit("zstd");
    reveal_strlit("gzip");
    reveal_strlit("reverse_proxy ");
    reveal_strlit("rate_limit");
    reveal_strlit("zone ");
    reveal_strlit("}");
    lemma_indents();
    let e = encoders(s);
    let x = "encode "@ + e;
    assert("    "@ + "encode "@ + e =~= "    "@ + x);
    assert(x.last() == e.last());
    lemma_not_starts(x, "zone "@, 0);
    lemma_not_starts(x, "rate_limit"@, 0);
    lemma_not_equal(x, "}"@, 0);
    lemma_step_directive(st, "    "@, x);
    lemma_not_starts(x, "reverse_proxy "@, 0);
    lemma_starts(x, "encode "@, e);
    let z = "zstd"@;
    let g = "gzip"@;
    if s.encode_zstd && s.encode_gzip {
        assert(e.subrange(0, 4) =~= z);
        assert(word_at(e, z, 0));
        assert(e.subrange(5, 9) =~= g);
        assert(word_at(e, g, 5));
    } else if s.encode_zstd {
        assert(e.subrange(0, 4) =~= z);
        assert(word_at(e, z, 0));
        assert forall|i: int| !word_at(e, g, i) by {
            if word_at(e, g, i) {
                assert(i == 0);
                assert(e.subrange(0, 4)[0] == e[0]);
            }
        }
    } else {
        assert(e.subrange(0, 4) =~= g);
        assert(word_at(e, g, 0));
        assert forall|i: int| !word_at(e, z, i) by {
            if word_at(e, z, i) {
                assert(i == 0);
                assert(e.subrange(0, 4)[0] == e[0]);
            }
        }
    }
}

/// `w` (four characters) stands in `v` at index `i` as a whole word: the
/// characters around it, if any, are whitespace.
pub open spec fn word4_at(v: Seq<char>, w: Seq<char>, i: int) -> bool {
    &&& 0 <= i
    &&& i + 4 <= v.len()
    &&& v.subrange(i, i + 4) == w
    &&& (i == 0 || is_ws(v[i - 1]))
    &&& (i + 4 == v.len() || is_ws(v[i + 4]))
}

/// An `encode` line sets each encoder on exactly when the line names it as
/// one of its whitespace-separated words (in any order, among any others),
/// and changes nothing else.
pub proof fn law_encode_line_names_encoders(site: SiteView, v: Seq<char>, in_rl: bool)
    ensures
        apply_directive(site, "encode "@ + v, in_rl).0.encode_zstd <==> exists|i: int|
            word4_at(v, "zstd"@, i),
        apply_directive(site, "encode "@ + v, in_rl).0.encode_gzip <==> exists|i: int|
            word4_at(v, "gzip"@, i),
        apply_directive(site, "encode "@ + v, in_rl).0 == (SiteView {
            encode_zstd: apply_directive(site, "encode "@ + v, in_rl).0.encode_zstd,
            encode_gzip: apply_directive(site, "encode "@ + v, in_rl).0.encode_gzip,
            ..site
        }),
        apply_directive(site, "encode "@ + v, in_rl).1 == in_rl,
{
    lemma_keywords();
    reveal_strlit("zstd");
    reveal_strlit("gzip");
    let x = "encode "@ + v;
    lemma_not_starts(x, "reverse_proxy "@, 0);
    lemma_starts(x, "encode "@, v);
    let z = "zstd"@;
    let g = "gzip"@;
    if exists|i: int| word_at(v, z, i) {
        let i = choose|i: int| word_at(v, z, i);
        assert(word4_at(v, z, i));
    }
    if exists|i: int| word4_at(v, z, i) {
        let i = choose|i: int| word4_at(v, z, i);
        assert(word_at(v, z, i));
    }
    if exists|i: int| word_at(v, g, i) {
        let i = choose|i: int| word_at(v, g, i);
        assert(word4_at(v, g, i));
    }
    if exists|i: int| word4_at(v, g, i) {
        let i = choose|i: int| word4_at(v, g, i);
        assert(word_at(v, g, i));
    }
}

proof fn lemma_keywords()
    ensures
        "encode "@ =~= seq!['e', 'n', 'c', 'o', 'd', 'e', ' '],
        "reverse_proxy "@ =~= seq!['r', 'e', 'v', 'e', 'r', 's', 'e', '_', 'p', 'r', 'o', 'x', 'y', ' '],
        "rate_limit"@ =~= seq!['r', 'a', 't', 'e', '_', 'l', 'i', 'm', 'i', 't'],
        "zone "@ =~= seq!['z', 'o', 'n', 'e', ' '],
        "events "@ =~= seq!['e', 'v', 'e', 'n', 't', 's', ' '],
        "window "@ =~= seq!['w', 'i', 'n', 'd', 'o', 'w', ' '],
        "tls internal"@ =~= seq!['t', 'l', 's', ' ', 'i', 'n', 't', 'e', 'r', 'n', 'a', 'l'],
        "}"@ =~= seq!['}'],
        " {"@ =~= seq![' ', '{'],
        "rate_limit {"@ =~= seq!['r', 'a', 't', 'e', '_', 'l', 'i', 'm', 'i', 't', ' ', '{'],
        "key {remote_host}"@ =~= seq!['k', 'e', 'y', ' ', '{', 'r', 'e', 'm', 'o', 't', 'e', '_', 'h', 'o', 's', 't', '}'],
{
    reveal_strlit("encode ");
    reveal_strlit("reverse_proxy ");
    reveal_strlit("rate_limit");
    reveal_strlit("zone ");
    reveal_strlit("events ");
    reveal_strlit("window ");
    reveal_strlit("tls internal");
    reveal_strlit("}");
    reveal_strlit(" {");
    reveal_strlit("rate_limit {");
    reveal_strlit("key {remote_host}");
}

proof fn lemma_line_tls(st: ParseState)
    requires
        (st.current is Some),
    ensures
        step(st, "    "@ + "tls internal"@) == (ParseState {
            current: Some(SiteView { tls_internal: true, ..st.current->0 }),
            ..st
        }),
{
    lemma_keywords();
    lemma_indents();
    let x = "tls internal"@;
    lemma_not_starts(x, "zone "@, 0);
    lemma_not_starts(x, "rate_limit"@, 0);
    lemma_not_equal(x, "}"@, 0);
    lemma_step_directive(st, "    "@, x);
    lemma_not_starts(x, "reverse_proxy "@, 0);
    lemma_not_starts(x, "encode "@, 0);
}

proof fn lemma_line_rate_limit(st: ParseState)
    requires
        (st.current is Some),
    ensures
        step(st, "    "@ + "rate_limit {"@) == (ParseState {
            current: Some(SiteView { rate_limit_enabled: true, ..st.current->0 }),
            in_rate_limit: true,
            ..st
        }),
{
    lemma_keywords();
    lemma_indents();
    let x = "rate_limit {"@;
    assert(x =~= "rate_limit"@ + seq![' ', '{']);
    lemma_starts(x, "rate_limit"@, seq![' ', '{']);
    lemma_not_equal(x, "}"@, 0);
    lemma_step_directive(st, "    "@, x);
    lemma_not_starts(x, "reverse_proxy "@, 1);
    lemma_not_starts(x, "encode "@, 0);
    lemma_not_equal(x, "tls internal"@, 0);
}

proof fn lemma_first_word_single(w: Seq<char>)
    requires
        single_word(w),
    ensures
        first_word(w + seq![' ']) == Some(w),
{
    let s = w + seq![' '];
    assert(ws_end(s, 0) == 0);
    lemma_word_end_to(s, 0, w.len() as int);
    assert(s.subrange(0, w.len() as int) =~= w);
}

proof fn lemma_word_end_to(s: Seq<char>, i: int, k: int)
    requires
        0 <= i <= k < s.len(),
        forall|m: int| i <= m < k ==> !is_ws(#[trigger] s[m]),
        is_ws(s[k]),
    ensures
        word_end(s, i) == k,
    decreases k - i,
{
    if i < k {
        lemma_word_end_to(s, i + 1, k);
    }
}

proof fn lemma_line_zone(st: ParseState, z: Seq<char>)
    requires
        (st.current is Some),
        st.in_rate_limit,
        single_word(z),
    ensures
        step(st, "        "@ + "zone "@ + z + " {"@) == (ParseState {
            current: Some(SiteView { rate_limit_zone: z, ..st.current->0 }),
            ..st
        }),
{
    lemma_keywords();
    lemma_indents();
    let rest = z + " {"@;
    let x = "zone "@ + rest;
    assert("        "@ + "zone "@ + z + " {"@ =~= "        "@ + x);
    assert(x.last() == '{');
    lemma_starts(x, "zone "@, rest);
    lemma_not_starts(x, "rate_limit"@, 0);
    lemma_not_equal(x, "}"@, 0);
    lemma_step_directive(st, "        "@, x);
    lemma_not_starts(x, "reverse_proxy "@, 0);
    lemma_not_starts(x, "encode "@, 0);
    lemma_not_equal(x, "tls internal"@, 0);
    // the zone's name: drop the brace, take the first word
    let n = rest.len() as int;
    assert(char_back(rest, '{', n - 1) == n - 1);
    assert(trim_end_char(rest, '{') =~= z + seq![' ']);
    lemma_first_word_single(z);
    assert(zone_name(after(x, "zone "@)) == z);
}

proof fn lemma_line_key(st: ParseState)
    requires
        (st.current is Some),
        st.in_rate_limit,
    ensures
        step(st, "            "@ + "key {remote_host}"@) == st,
{
    lemma_keywords();
    lemma_indents();
    let x = "key {remote_host}"@;
    lemma_not_equal(x, "}"@, 0);
    lemma_step_directive(st, "            "@, x);
    lemma_not_starts(x, "reverse_proxy "@, 0);
    lemma_not_starts(x, "encode "@, 0);
    lemma_not_equal(x, "tls internal"@, 0);
    lemma_not_starts(x, "rate_limit"@, 0);
    lemma_not_starts(x, "zone "@, 0);
    lemma_not_starts(x, "events "@, 0);
    lemma_not_starts(x, "window "@, 0);
    assert(st == (ParseState { current: Some(st.current->0), ..st }));
}

proof fn lemma_digits_solid(n: u32)
    ensures
        solid(decimal(n as nat)),
{
    lemma_decimal(n as nat);
    let d = decimal(n as nat);
    assert(is_digit(d[0]));
    assert(is_digit(d[d.len() - 1]));
}

proof fn lemma_line_events(st: ParseState, n: u32)
    requires
        (st.current is Some),
        st.in_rate_limit,
    ensures
        step(st, "            "@ + "events "@ + decimal(n as nat)) == (ParseState {
            current: Some(SiteView { rate_limit_events: n, ..st.current->0 }),
            ..st
        }),
{
    lemma_keywords();
    lemma_indents();
    let d = decimal(n as nat);
    lemma_digits_solid(n);
    let x = "events "@ + d;
    assert("            "@ + "events "@ + d =~= "            "@ + x);
    assert(x.last() == d.last());
    assert(is_digit(d.last()));
    lemma_not_equal(x, "}"@, 0);
    lemma_not_starts(x, "zone "@, 0);
    lemma_not_starts(x, "rate_limit"@, 0);
    lemma_step_directive(st, "            "@, x);
    lemma_not_starts(x, "reverse_proxy "@, 0);
    lemma_not_starts(x, "encode "@, 1);
    lemma_not_equal(x, "tls internal"@, 0);
    lemma_starts(x, "events "@, d);
    lemma_trim_solid(Seq::<char>::empty(), d);
    assert(Seq::<char>::empty() + d =~= d);
    lemma_parse_decimal(n);
}

proof fn lemma_line_window(st: ParseState, w: Seq<char>)
    requires
        (st.current is Some),
        st.in_rate_limit,
        solid(w),
        w.last() != '{',
    ensures
        step(st, "            "@ + "window "@ + w) == (ParseState {
            current: Some(SiteView { rate_limit_window: w, ..st.current->0 }),
            ..st
        }),
{
    lemma_keywords();
    lemma_indents();
    let x = "window "@ + w;
    assert("            "@ + "window "@ + w =~= "            "@ + x);
    assert(x.last() == w.last());
    lemma_not_equal(x, "}"@, 0);
    lemma_not_starts(x, "zone "@, 0);
    lemma_not_starts(x, "rate_limit"@, 0);
    lemma_step_directive(st, "            "@, x);
    lemma_not_starts(x, "reverse_proxy "@, 0);
    lemma_not_starts(x, "encode "@, 0);
    lemma_not_equal(x, "tls internal"@, 0);
    lemma_not_starts(x, "events "@, 0);
    lemma_starts(x, "window "@, w);
    lemma_trim_solid(Seq::<char>::empty(), w);
    assert(Seq::<char>::empty() + w =~= w);
}

proof fn lemma_line_proxy(st: ParseState, u: Seq<char>)
    requires
        (st.current is Some),
        solid(u),
        u.last() != '{',
    ensures
        step(st, "    "@ + "reverse_proxy "@ + u) == (ParseState {
            current: Some(SiteView { upstream: u, ..st.current->0 }),
            ..st
        }),
{
    lemma_keywords();
    lemma_indents();
    let x = "reverse_proxy "@ + u;
    assert("    "@ + "reverse_proxy "@ + u =~= "    "@ + x);
    assert(x.last() == u.last());
    lemma_not_equal(x, "}"@, 0);
    lemma_not_starts(x, "zone "@, 0);
    lemma_starts(x, "reverse_proxy "@, u);
    lemma_step_directive(st, "    "@, x);
    lemma_trim_solid(Seq::<char>::empty(), u);
    assert(Seq::<char>::empty() + u =~= u);
}

proof fn lemma_line_header(st: ParseState, a: Seq<char>)
    requires
        a.len() > 0 ==> {
            &&& solid(a)
            &&& a[0] != '#'
            &&& !starts_with(a + " {"@, "rate_limit"@)
            &&& !starts_with(a + " {"@, "zone "@)
        },
    ensures
        step(st, a + " {"@) == (ParseState {
            sites: finish(st),
            current: Some(SiteView { address: a, ..default_site() }),
            in_rate_limit: false,
        }),
{
    lemma_keywords();
    let x = a + " {"@;
    if a.len() == 0 {
        let b = seq!['{'];
        assert(x =~= seq![' '] + b);
        assert(all_ws(seq![' ']));
        lemma_trim_solid(seq![' '], b);
        lemma_not_starts(b, "rate_limit"@, 0);
        lemma_not_starts(b, "zone "@, 0);
        assert(char_back(b, '{', 0) == 0);
        assert(char_back(b, '{', 1) == 0);
        assert(trim_end_char(b, '{') =~= Seq::<char>::empty());
        lemma_trim_empty();
        assert(header_address(b) =~= a);
    } else {
        assert(solid(x));
        lemma_trim_solid(Seq::<char>::empty(), x);
        assert(Seq::<char>::empty() + x =~= x);
        let n = x.len() as int;
        assert(x[n - 2] == ' ');
        assert(char_back(x, '{', n - 1) == n - 1);
        assert(trim_end_char(x, '{') =~= a + seq![' ']);
        assert(all_ws(seq![' ']));
        lemma_trim_padded(Seq::<char>::empty(), a, seq![' ']);
        assert(Seq::<char>::empty() + a + seq![' '] =~= a + seq![' ']);
        assert(header_address(x) == a);
    }
}

/// The conditions under which every setting of a server but its encoders
/// survives being rendered and read back: its text fields are free of line
/// breaks and of surrounding whitespace, the address cannot be mistaken for a
/// comment or a `rate_limit`/`zone` line, the upstream and window do not end
/// in `{`, the zone is one word, and a server without rate limiting keeps the
/// default rate-limit settings (which are not written).
pub open spec fn site_fields_round_trip(s: SiteView) -> bool {
    &&& no_newline(s.address)
    &&& (s.address.len() > 0 ==> {
        &&& solid(s.address)
        &&& s.address[0] != '#'
        &&& !starts_with(s.address + " {"@, "rate_limit"@)
        &&& !starts_with(s.address + " {"@, "zone "@)
    })
    &&& solid(s.upstream)
    &&& no_newline(s.upstream)
    &&& s.upstream.last() != '{'
    &&& if s.rate_limit_enabled {
        &&& single_word(s.rate_limit_zone)
        &&& solid(s.rate_limit_window)
        &&& no_newline(s.rate_limit_window)
        &&& s.rate_limit_window.last() != '{'
    } else {
        &&& s.rate_limit_zone == "dynamic"@
        &&& s.rate_limit_events == 100
        &&& s.rate_limit_window == "1m"@
    }
}

/// The conditions under which a server survives being rendered and read
/// back: those of [`site_fields_round_trip`], and at least one encoder on.
pub open spec fn site_round_trips(s: SiteView) -> bool {
    &&& site_fields_round_trip(s)
    &&& (s.encode_zstd || s.encode_gzip)
}

/// What a server reads back as once rendered: itself, except that with both
/// encoders off no `encode` line is written, so it reads back with both on.
pub open spec fn read_back(s: SiteView) -> SiteView {
    if s.encode_zstd || s.encode_gzip {
        s
    } else {
        SiteView { encode_zstd: true, encode_gzip: true, ..s }
    }
}

/// What each server reads back as once rendered.
pub open spec fn read_back_all(sites: Seq<SiteView>) -> Seq<SiteView> {
    Seq::new(sites.len(), |i: int| read_back(sites[i]))
}

proof fn lemma_fold_site(st: ParseState, s: SiteView)
    requires
        site_fields_round_trip(s),
    ensures
        fold_steps(st, site_lines(s)) == (ParseState {
            sites: finish(st),
            current: Some(read_back(s)),
            in_rate_limit: false,
        }),
{
    let e: Seq<Seq<char>> = Seq::empty();
    let h = s.address + " {"@;
    let l0 = seq![h];
    assert(e.push(h) =~= l0);
    lemma_fold_push(st, e, h);
    lemma_line_header(st, s.address);
    let st1 = fold_steps(st, l0);
    let c1 = SiteView { address: s.address, ..default_site() };
    assert(st1 == ParseState { sites: finish(st), current: Some(c1), in_rate_limit: false });

    let enc_line = "    "@ + "encode "@ + encoders(s);
    let l1 = if s.encode_zstd || s.encode_gzip { l0.push(enc_line) } else { l0 };
    let c2 = if s.encode_zstd || s.encode_gzip {
        SiteView { encode_zstd: s.encode_zstd, encode_gzip: s.encode_gzip, ..c1 }
    } else {
        c1
    };
    if s.encode_zstd || s.encode_gzip {
        lemma_fold_push(st, l0, enc_line);
        lemma_line_encode(st1, s);
    }
    let st2 = fold_steps(st, l1);
    assert(st2 == ParseState { current: Some(c2), ..st1 });

    let tls_line = "    "@ + "tls internal"@;
    let l2 = if s.tls_internal { l1.push(tls_line) } else { l1 };
    let c3 = SiteView { tls_internal: s.tls_internal, ..c2 };
    if s.tls_internal {
        lemma_fold_push(st, l1, tls_line);
        lemma_line_tls(st2);
    }
    let st3 = fold_steps(st, l2);
    assert(st3 == ParseState { current: Some(c3), ..st1 });

    let r0 = "    "@ + "rate_limit {"@;
    let r1 = "        "@ + "zone "@ + s.rate_limit_zone + " {"@;
    let r2 = "            "@ + "key {remote_host}"@;
    let r3 = "            "@ + "events "@ + decimal(s.rate_limit_events as nat);
    let r4 = "            "@ + "window "@ + s.rate_limit_window;
    let r5 = "        "@ + "}"@;
    let r6 = "    "@ + "}"@;
    let l3 = if s.rate_limit_enabled {
        l2.push(r0).push(r1).push(r2).push(r3).push(r4).push(r5).push(r6)
    } else {
        l2
    };
    let c4 = SiteView {
        rate_limit_enabled: s.rate_limit_enabled,
        rate_limit_zone: s.rate_limit_zone,
        rate_limit_events: s.rate_limit_events,
        rate_limit_window: s.rate_limit_window,
        ..c3
    };
    lemma_indents();
    if s.rate_limit_enabled {
        let a0 = l2.push(r0);
        let a1 = a0.push(r1);
        let a2 = a1.push(r2);
        let a3 = a2.push(r3);
        let a4 = a3.push(r4);
        let a5 = a4.push(r5);
        let a6 = a5.push(r6);
        lemma_fold_push(st, l2, r0);
        lemma_line_rate_limit(st3);
        let t0 = fold_steps(st, a0);
        lemma_fold_push(st, a0, r1);
        lemma_line_zone(t0, s.rate_limit_zone);
        let t1 = fold_steps(st, a1);
        lemma_fold_push(st, a1, r2);
        lemma_line_key(t1);
        let t2 = fold_steps(st, a2);
        lemma_fold_push(st, a2, r3);
        lemma_line_events(t2, s.rate_limit_events);
        let t3 = fold_steps(st, a3);
        lemma_fold_push(st, a3, r4);
        lemma_line_window(t3, s.rate_limit_window);
        let t4 = fold_steps(st, a4);
        lemma_fold_push(st, a4, r5);
        lemma_step_close(t4, "        "@);
        let t5 = fold_steps(st, a5);
        lemma_fold_push(st, a5, r6);
        lemma_step_close(t5, "    "@);
    }
    let st4 = fold_steps(st, l3);
    assert(st4 == ParseState { current: Some(c4), ..st1 });

    let p = "    "@ + "reverse_proxy "@ + s.upstream;
    let l4 = l3.push(p);
    lemma_fold_push(st, l3, p);
    lemma_line_proxy(st4, s.upstream);
    let c5 = SiteView { upstream: s.upstream, ..c4 };
    let l5 = l4.push("}"@);
    lemma_fold_push(st, l4, "}"@);
    assert(Seq::<char>::empty() + "}"@ =~= "}"@);
    lemma_step_close(fold_steps(st, l4), Seq::<char>::empty());
    let l6 = l5.push(Seq::<char>::empty());
    lemma_fold_push(st, l5, Seq::<char>::empty());
    lemma_step_empty(fold_steps(st, l5));
    assert(l6 == site_lines(s));
    assert(c5 == read_back(s));
}

proof fn lemma_no_newline_concat(a: Seq<char>, b: Seq<char>)
    requires
        no_newline(a),
        no_newline(b),
    ensures
        no_newline(a + b),
{
    assert forall|i: int| 0 <= i < (a + b).len() implies (a + b)[i] != '\n' by {
        if i < a.len() {
            assert((a + b)[i] == a[i]);
        } else {
            assert((a + b)[i] == b[i - a.len()]);
        }
    }
}

proof fn lemma_literals_no_newline()
    ensures
        no_newline("    "@),
        no_newline("        "@),
        no_newline("            "@),
        no_newline("encode "@),
        no_newline("zstd gzip"@),
        no_newline("zstd"@),
        no_newline("gzip"@),
        no_newline("tls internal"@),
        no_newline("rate_limit {"@),
        no_newline("zone "@),
        no_newline(" {"@),
        no_newline("key {remote_host}"@),
        no_newline("events "@),
        no_newline("window "@),
        no_newline("}"@),
        no_newline("reverse_proxy "@),
        no_newline(Seq::<char>::empty()),
{
    lemma_keywords();
    reveal_strlit("    ");
    reveal_strlit("        ");
    reveal_strlit("            ");
    reveal_strlit("zstd gzip");
    reveal_strlit("zstd");
    reveal_strlit("gzip");
}

proof fn lemma_single_word_no_newline(w: Seq<char>)
    requires
        single_word(w),
    ensures
        no_newline(w),
{
    assert forall|i: int| 0 <= i < w.len() implies w[i] != '\n' by {
        assert(!is_ws(w[i]));
    }
}

proof fn lemma_decimal_no_newline(n: nat)
    ensures
        no_newline(decimal(n)),
{
    lemma_decimal(n);
    assert forall|i: int| 0 <= i < decimal(n).len() implies decimal(n)[i] != '\n' by {
        assert(is_digit(decimal(n)[i]));
    }
}

proof fn lemma_site_lines_no_newline(s: SiteView)
    requires
        site_fields_round_trip(s),
    ensures
        forall|k: int| 0 <= k < site_lines(s).len() ==> no_newline(#[trigger] site_lines(s)[k]),
{
    lemma_literals_no_newline();
    lemma_no_newline_concat(s.address, " {"@);
    lemma_no_newline_concat("    "@, "encode "@);
    lemma_no_newline_concat("    "@ + "encode "@, encoders(s));
    lemma_no_newline_concat("    "@, "tls internal"@);
    lemma_no_newline_concat("    "@, "rate_limit {"@);
    reveal_strlit("1m");
    reveal_strlit("dynamic");
    if s.rate_limit_enabled {
        lemma_single_word_no_newline(s.rate_limit_zone);
    }
    lemma_no_newline_concat("        "@, "zone "@);
    lemma_no_newline_concat("        "@ + "zone "@, s.rate_limit_zone);
    lemma_no_newline_concat("        "@ + "zone "@ + s.rate_limit_zone, " {"@);
    lemma_no_newline_concat("            "@, "key {remote_host}"@);
    lemma_no_newline_concat("            "@, "events "@);
    lemma_decimal_no_newline(s.rate_limit_events as nat);
    lemma_no_newline_concat("            "@ + "events "@, decimal(s.rate_limit_events as nat));
    lemma_no_newline_concat("            "@, "window "@);
    lemma_no_newline_concat("            "@ + "window "@, s.rate_limit_window);
    lemma_no_newline_concat("        "@, "}"@);
    lemma_no_newline_concat("    "@, "}"@);
    lemma_no_newline_concat("    "@, "reverse_proxy "@);
    lemma_no_newline_concat("    "@ + "reverse_proxy "@, s.upstream);
}

proof fn lemma_config_lines(sites: Seq<SiteView>)
    requires
        forall|k: int| 0 <= k < sites.len() ==> site_fields_round_trip(#[trigger] sites[k]),
    ensures
        forall|k: int|
            0 <= k < config_lines(sites).len() ==> no_newline(#[trigger] config_lines(sites)[k]),
        fold_steps(initial_state(), config_lines(sites)) == (if sites.len() == 0 {
            initial_state()
        } else {
            ParseState {
                sites: read_back_all(sites.drop_last()),
                current: Some(read_back(sites.last())),
                in_rate_limit: false,
            }
        }),
    decreases sites.len(),
{
    if sites.len() > 0 {
        let prev = sites.drop_last();
        let s = sites.last();
        assert forall|k: int| 0 <= k < prev.len() implies site_fields_round_trip(#[trigger] prev[k]) by {
            assert(prev[k] == sites[k]);
        }
        lemma_config_lines(prev);
        assert(site_fields_round_trip(sites[sites.len() - 1]));
        lemma_site_lines_no_newline(s);
        let a = config_lines(prev);
        let b = site_lines(s);
        assert forall|k: int| 0 <= k < (a + b).len() implies no_newline(#[trigger] (a + b)[k]) by {
            if k < a.len() {
                assert((a + b)[k] == a[k]);
            } else {
                assert((a + b)[k] == b[k - a.len()]);
            }
        }
        lemma_fold_concat(initial_state(), a, b);
        let st = fold_steps(initial_state(), a);
        lemma_fold_site(st, s);
        if prev.len() > 0 {
            assert(read_back_all(prev.drop_last()).push(read_back(prev.last())) =~= read_back_all(prev));
        } else {
            assert(read_back_all(prev) =~= Seq::<SiteView>::empty());
        }
    }
}

/// Reading back the rendered managed block gives each server as
/// [`read_back`] says: the same server, except that one with both encoders
/// off (which gets no `encode` line) reads back with both on.  This holds for
/// every server list whose servers satisfy [`site_fields_round_trip`].
pub proof fn law_parse_render_read_back(sites: Seq<SiteView>)
    requires
        forall|k: int| 0 <= k < sites.len() ==> site_fields_round_trip(#[trigger] sites[k]),
    ensures
        parse_block(render_config_text(sites)) == read_back_all(sites),
{
    lemma_config_lines(sites);
    lemma_parse_lines(config_lines(sites));
    if sites.len() > 0 {
        assert(read_back_all(sites.drop_last()).push(read_back(sites.last())) =~= read_back_all(sites));
    } else {
        assert(read_back_all(sites) =~= Seq::<SiteView>::empty());
    }
}

/// Reading back the rendered managed block gives the same servers, for every
/// server list whose servers satisfy [`site_round_trips`].
pub proof fn law_parse_render_round_trip(sites: Seq<SiteView>)
    requires
        forall|k: int| 0 <= k < sites.len() ==> site_round_trips(#[trigger] sites[k]),
    ensures
        parse_block(render_config_text(sites)) == sites,
{
    assert forall|k: int| 0 <= k < sites.len() implies site_fields_round_trip(#[trigger] sites[k]) by {
        assert(site_round_trips(sites[k]));
    }
    law_parse_render_read_back(sites);
    assert(read_back_all(sites) =~= sites);
}

// ---------------------------------------------------------------------------
// The whole document
// ---------------------------------------------------------------------------

/// The text before the managed block, as the rendered document holds it.
pub open spec fn saved_prefix(prefix: Seq<char>) -> Seq<char> {
    let tp = trim_end(prefix);
    if tp.len() > 0 { tp + "\n\n"@ } else { tp }
}

/// The text after the managed block, as the rendered document holds it.
pub open spec fn saved_suffix(suffix: Seq<char>) -> Seq<char> {
    let ts = trim_start(suffix);
    "\n"@ + (if ts.len() > 0 { "\n"@ + ts } else { Seq::<char>::empty() })
}

/// The first occurrence of `p` at or after `j` is at `k`.
proof fn lemma_find_first(s: Seq<char>, p: Seq<char>, j: int, k: int)
    requires
        0 <= j <= k,
        occurs_at(s, p, k),
        forall|i: int| j <= i < k ==> !occurs_at(s, p, i),
    ensures
        find_from(s, p, j) == Some(k),
    decreases k - j,
{
    if j < k {
        lemma_find_first(s, p, j + 1, k);
    }
}

proof fn lemma_occurs_char(s: Seq<char>, p: Seq<char>, i: int, j: int)
    requires
        occurs_at(s, p, i),
        i <= j < i + p.len(),
    ensures
        s[j] == p[j - i],
{
    assert(s.subrange(i, i + p.len())[j - i] == s[j]);
}

proof fn lemma_markers()
    ensures
        begin_marker() =~= seq!['#', ' ', 'c', 'a', 'd', 'd', 'y', 'u', 'p', ':', 'b', 'e', 'g', 'i', 'n'],
        end_marker() =~= seq!['#', ' ', 'c', 'a', 'd', 'd', 'y', 'u', 'p', ':', 'e', 'n', 'd'],
        "\n"@ =~= seq!['\n'],
        "\n\n"@ =~= seq!['\n', '\n'],
{
    reveal_strlit("# caddyup:begin");
    reveal_strlit("# caddyup:end");
    reveal_strlit("\n");
    reveal_strlit("\n\n");
}

proof fn lemma_saved_prefix(prefix: Seq<char>)
    ensures
        trim_end(saved_prefix(prefix)) == trim_end(prefix),
        saved_prefix(prefix).len() == 0 || saved_prefix(prefix).len() >= 2,
        forall|i: int|
            trim_end(prefix).len() <= i < saved_prefix(prefix).len() ==> saved_prefix(prefix)[i] == '\n',
        saved_prefix(prefix).len() > 0 ==> saved_prefix(prefix).len() == trim_end(prefix).len() + 2,
        saved_prefix(prefix).len() == 0 ==> trim_end(prefix).len() == 0,
        trim_end(prefix) =~= prefix.take(trim_end(prefix).len() as int),
        trim_end(prefix).len() <= prefix.len(),
{
    lemma_markers();
    let tp = trim_end(prefix);
    lemma_ws_back_bounds(prefix, prefix.len() as int);
    let sp = saved_prefix(prefix);
    if tp.len() > 0 {
        assert(!is_ws(sp[tp.len() - 1]));
        assert(is_ws('\n'));
        lemma_ws_back_from(sp, sp.len() as int, tp.len() as int);
        assert(trim_end(sp) =~= tp);
    } else {
        assert(trim_end(sp) =~= tp);
    }
}

proof fn lemma_saved_suffix(suffix: Seq<char>)
    ensures
        trim_start(saved_suffix(suffix)) == trim_start(suffix),
{
    lemma_markers();
    let ts = trim_start(suffix);
    lemma_ws_end_bounds(suffix, 0);
    let ss = saved_suffix(suffix);
    assert(is_ws('\n'));
    if ts.len() > 0 {
        assert(ss =~= seq!['\n', '\n'] + ts);
        assert(!is_ws(ss[2]));
        lemma_ws_end_from(ss, 0, 2);
        assert(trim_start(ss) =~= ts);
    } else {
        assert(ss =~= seq!['\n']);
        assert(ws_end(ss, 1) == 1);
        assert(ws_end(ss, 0) == 1);
        assert(trim_start(ss) =~= ts);
    }
}

/// An occurrence of `p` in `s` at `i`, inside a stretch of `s` that copies
/// `t` shifted by `d`, is an occurrence in `t`.
proof fn lemma_occurs_transfer(s: Seq<char>, t: Seq<char>, p: Seq<char>, i: int, d: int)
    requires
        occurs_at(s, p, i),
        0 <= i - d,
        i - d + p.len() <= t.len(),
        forall|k: int| i <= k < i + p.len() ==> s[k] == #[trigger] t[k - d],
    ensures
        occurs_at(t, p, i - d),
{
    assert forall|k: int| 0 <= k < p.len() implies #[trigger] t.subrange(i - d, i - d + p.len())[k] == p[k] by {
        lemma_occurs_char(s, p, i, i + k);
        assert(s[i + k] == t[i + k - d]);
    }
    assert(t.subrange(i - d, i - d + p.len()) =~= p);
}

/// The begin marker right after the saved prefix is the first one.
proof fn lemma_begin_found(prefix: Seq<char>, x: Seq<char>)
    requires
        !contains(prefix, begin_marker()),
        x.len() >= 15,
        x.take(15) == begin_marker(),
    ensures
        find_from(saved_prefix(prefix) + x, begin_marker(), 0) == Some(saved_prefix(prefix).len() as int),
{
    lemma_markers();
    let bm = begin_marker();
    let p = saved_prefix(prefix);
    let out = p + x;
    lemma_saved_prefix(prefix);
    let tp = trim_end(prefix);
    let pl = p.len() as int;
    assert(out.subrange(pl, pl + 15) =~= x.take(15));
    assert forall|i: int| 0 <= i < pl implies !occurs_at(out, bm, i) by {
        if occurs_at(out, bm, i) {
            if i + 15 <= tp.len() {
                assert forall|k: int| i <= k < i + 15 implies out[k] == #[trigger] prefix[k - 0] by {
                    assert(out[k] == p[k]);
                    assert(p[k] == tp[k]);
                    assert(tp[k] == prefix.take(tp.len() as int)[k]);
                }
                lemma_occurs_transfer(out, prefix, bm, i, 0);
            } else {
                let j = if i <= tp.len() { tp.len() as int } else { i };
                assert(out[j] == p[j]);
                assert(out[j] == '\n');
                lemma_occurs_char(out, bm, i, j);
            }
        }
    }
    lemma_find_first(out, bm, 0, pl);
}

proof fn lemma_end_not_before(out: Seq<char>, r: Seq<char>, ab: int, i: int)
    requires
        0 <= ab,
        ab + 1 + r.len() + 13 <= out.len(),
        out[ab] == '\n',
        forall|k: int| 0 <= k < r.len() ==> out[ab + 1 + k] == #[trigger] r[k],
        out.subrange(ab + 1 + r.len(), ab + 1 + r.len() + 13) == end_marker(),
        !contains(r, end_marker()),
        ab <= i < ab + 1 + r.len(),
    ensures
        !occurs_at(out, end_marker(), i),
{
    lemma_markers();
    let em = end_marker();
    let q = ab + 1 + r.len();
    if occurs_at(out, em, i) {
        if i == ab {
            lemma_occurs_char(out, em, i, ab);
        } else if i + 13 <= q {
            assert forall|k: int| i <= k < i + 13 implies out[k] == #[trigger] r[k - (ab + 1)] by {
                assert(out[ab + 1 + (k - (ab + 1))] == r[k - (ab + 1)]);
            }
            lemma_occurs_transfer(out, r, em, i, ab + 1);
        } else {
            lemma_occurs_char(out, em, i, q);
            assert(out[q] == out.subrange(q, q + 13)[0]);
        }
    }
}

/// After a line break and text without the end marker, the end marker that
/// follows is the first one.
proof fn lemma_end_found(a: Seq<char>, r: Seq<char>, y: Seq<char>)
    requires
        !contains(r, end_marker()),
    ensures
        find_from(a + "\n"@ + r + end_marker() + y, end_marker(), a.len() as int) == Some(
            (a.len() + 1 + r.len()) as int,
        ),
{
    lemma_markers();
    let em = end_marker();
    let out = a + "\n"@ + r + em + y;
    let ab = a.len() as int;
    let q = ab + 1 + r.len();
    assert(out.subrange(q, q + 13) =~= em);
    assert forall|k: int| 0 <= k < r.len() implies out[ab + 1 + k] == #[trigger] r[k] by {}
    assert forall|i: int| ab <= i < q implies !occurs_at(out, em, i) by {
        lemma_end_not_before(out, r, ab, i);
    }
    lemma_find_first(out, em, ab, q);
}

/// Reading a managed block back after the line break that follows its begin
/// marker gives the same servers.
proof fn lemma_block_round_trip(sites: Seq<SiteView>)
    requires
        forall|k: int| 0 <= k < sites.len() ==> site_round_trips(#[trigger] sites[k]),
    ensures
        loaded_config(Some("\n"@ + render_config_text(sites))) == sites,
{
    assert forall|k: int| 0 <= k < sites.len() implies site_fields_round_trip(#[trigger] sites[k]) by {
        assert(site_round_trips(sites[k]));
    }
    assert(read_back_all(sites) =~= sites);
    if sites.len() > 0 {
        assert(read_back_all(sites.drop_last()) =~= sites.drop_last());
        assert(read_back(sites.last()) == sites.last()) by {
            assert(site_round_trips(sites[sites.len() - 1]));
        }
    }
    lemma_config_lines(sites);
    let ls = config_lines(sites);
    let e: Seq<Seq<char>> = seq![Seq::<char>::empty()];
    lemma_lines_text_one();
    crate::caddyfile::lemma_lines_text_concat(e, ls);
    assert forall|k: int| 0 <= k < (e + ls).len() implies no_newline(#[trigger] (e + ls)[k]) by {
        if k > 0 {
            assert((e + ls)[k] == ls[k - 1]);
        } else {
            assert((e + ls)[k] =~= Seq::<char>::empty());
        }
    }
    lemma_parse_lines(e + ls);
    lemma_fold_concat(initial_state(), e, ls);
    lemma_fold_push(initial_state(), Seq::empty(), Seq::<char>::empty());
    assert(Seq::<Seq<char>>::empty().push(Seq::<char>::empty()) =~= e);
    lemma_step_empty(initial_state());
    if sites.len() > 0 {
        assert(sites.drop_last().push(sites.last()) =~= sites);
    }
}

/// Rendering a document and splitting it again: the managed block is found
/// where it was written, the text around it is what the document keeps of
/// its own, and rendering that text again with the same servers reproduces
/// the document exactly.  This holds for every document whose text before
/// the block holds no begin marker (as every loaded document's does) and
/// whose managed block holds no end marker.
pub proof fn law_document_split_round_trip(prefix: Seq<char>, suffix: Seq<char>, sites: Seq<SiteView>)
    requires
        !contains(prefix, begin_marker()),
        !contains(render_config_text(sites), end_marker()),
    ensures
        split_text(render_document(prefix, suffix, sites)) == Some(
            (
                saved_prefix(prefix),
                Some("\n"@ + render_config_text(sites)),
                saved_suffix(suffix),
            ),
        ),
        render_document(saved_prefix(prefix), saved_suffix(suffix), sites) == render_document(
            prefix,
            suffix,
            sites,
        ),
{
    lemma_markers();
    let bm = begin_marker();
    let em = end_marker();
    let nl = "\n"@;
    let p = saved_prefix(prefix);
    let r = render_config_text(sites);
    let sfx = saved_suffix(suffix);
    let tail = if trim_start(suffix).len() > 0 { nl + trim_start(suffix) } else { Seq::<char>::empty() };
    let out = render_document(prefix, suffix, sites);
    let x = bm + nl + r + em + nl + tail;
    assert(out =~= p + x);
    assert(x.take(15) =~= bm);
    lemma_begin_found(prefix, x);
    let pl = p.len() as int;
    let ab = pl + 15;
    let q = ab + 1 + r.len();
    assert(out =~= (p + bm) + nl + r + em + (nl + tail));
    lemma_end_found(p + bm, r, nl + tail);
    assert(out.take(pl) =~= p);
    assert(out.subrange(ab, q) =~= nl + r);
    assert(out.skip(q + 13) =~= sfx);
    lemma_saved_prefix(prefix);
    lemma_saved_suffix(suffix);
}

/// Rendering a document and reading it back gives the same servers, for
/// every document as in [`law_document_split_round_trip`] whose servers
/// satisfy [`site_round_trips`].
pub proof fn law_document_round_trip(prefix: Seq<char>, suffix: Seq<char>, sites: Seq<SiteView>)
    requires
        !contains(prefix, begin_marker()),
        forall|k: int| 0 <= k < sites.len() ==> site_round_trips(#[trigger] sites[k]),
        !contains(render_config_text(sites), end_marker()),
    ensures
        split_text(render_document(prefix, suffix, sites)) == Some(
            (
                saved_prefix(prefix),
                Some("\n"@ + render_config_text(sites)),
                saved_suffix(suffix),
            ),
        ),
        loaded_config(Some("\n"@ + render_config_text(sites))) == sites,
{
    law_document_split_round_trip(prefix, suffix, sites);
    lemma_block_round_trip(sites);
}

proof fn lemma_lines_text_one()
    ensures
        lines_text(seq![Seq::<char>::empty()]) == "\n"@,
{
    let e = seq![Seq::<char>::empty()];
    assert(e.drop_last() =~= Seq::<Seq<char>>::empty());
    assert(lines_text(Seq::<Seq<char>>::empty()) =~= Seq::<char>::empty());
    assert(lines_text(e) =~= "\n"@);
}

/// The text outside the managed block survives rendering: the rendered
/// document begins with the text before the block (without its trailing
/// whitespace) and ends with the text after it (without its leading
/// whitespace).
pub proof fn law_unmanaged_text_kept(prefix: Seq<char>, suffix: Seq<char>, sites: Seq<SiteView>)
    ensures
        render_document(prefix, suffix, sites).take(trim_end(prefix).len() as int) == trim_end(prefix),
        render_document(prefix, suffix, sites).skip(
            render_document(prefix, suffix, sites).len() - trim_start(suffix).len(),
        ) == trim_start(suffix),
{
    let out = render_document(prefix, suffix, sites);
    let tp = trim_end(prefix);
    let ts = trim_start(suffix);
    let head = if tp.len() > 0 { tp + "\n\n"@ } else { tp };
    let tail = if ts.len() > 0 { "\n"@ + ts } else { Seq::<char>::empty() };
    let mid = begin_marker() + "\n"@ + render_config_text(sites) + end_marker() + "\n"@;
    assert(out =~= head + mid + tail);
    assert(out.take(tp.len() as int) =~= tp);
    assert(out.skip(out.len() - ts.len()) =~= ts);
}

} // verus!

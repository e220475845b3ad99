//! The Caddyfile: the managed block's text format (rendering and parsing),
//! and the document that keeps the unmanaged text around it.
use vstd::prelude::*;
use vstd::string::StringExecFns;
use crate::model::{CaddyConfig, Site, SiteView, default_site, sites_view};
use crate::paths::{join, joined_path};
use crate::text::{
    lemma_find_from, trim_start, trim_end, trim, starts_with, trim_end_char, first_word, has_word,
    occurs_at, find_from, contains, parse_u32, decimal, chars_of, string_of, slice_chars,
    trim_start_chars, trim_end_chars, trim_chars, starts_with_str, equals_str, trim_end_char_chars,
    first_word_chars, has_word_chars, find_str, parse_u32_chars, push_decimal,
};

verus! {

broadcast use vstd::string::group_string_axioms;

// ---------------------------------------------------------------------------
// Rendering
// ---------------------------------------------------------------------------

/// The encoders named on a server's `encode` line.
pub open spec fn encoders(s: SiteView) -> Seq<char> {
    if s.encode_zstd && s.encode_gzip {
        "zstd gzip"@
    } else if s.encode_zstd {
        "zstd"@
    } else {
        "gzip"@
    }
}

/// The lines (without their line breaks) that render one server.
pub open spec fn site_lines(s: SiteView) -> Seq<Seq<char>> {
    let l0 = seq![s.address + " {"@];
    let l1 = if s.encode_zstd || s.encode_gzip {
        l0.push("    "@ + "encode "@ + encoders(s))
    } else {
        l0
    };
    let l2 = if s.tls_internal {
        l1.push("    "@ + "tls internal"@)
    } else {
        l1
    };
    let l3 = if s.rate_limit_enabled {
        l2.push("    "@ + "rate_limit {"@).push("        "@ + "zone "@ + s.rate_limit_zone + " {"@).push(
            "            "@ + "key {remote_host}"@,
        ).push("            "@ + "events "@ + decimal(s.rate_limit_events as nat)).push(
            "            "@ + "window "@ + s.rate_limit_window,
        ).push("        "@ + "}"@).push("    "@ + "}"@)
    } else {
        l2
    };
    l3.push("    "@ + "reverse_proxy "@ + s.upstream).push("}"@).push(Seq::<char>::empty())
}

/// The lines of all servers, in order.
pub open spec fn config_lines(sites: Seq<SiteView>) -> Seq<Seq<char>>
    decreases sites.len(),
{
    if sites.len() == 0 {
        Seq::empty()
    } else {
        config_lines(sites.drop_last()) + site_lines(sites.last())
    }
}

/// Each line followed by a line break.
pub open spec fn lines_text(ls: Seq<Seq<char>>) -> Seq<char>
    decreases ls.len(),
{
    if ls.len() == 0 {
        Seq::empty()
    } else {
        lines_text(ls.drop_last()) + ls.last() + "\n"@
    }
}

/// The text of the managed block for these servers.
pub open spec fn render_config_text(sites: Seq<SiteView>) -> Seq<char> {
    lines_text(config_lines(sites))
}

pub proof fn lemma_lines_text_push(ls: Seq<Seq<char>>, l: Seq<char>)
    ensures
        lines_text(ls.push(l)) == lines_text(ls) + l + "\n"@,
{
    assert(ls.push(l).drop_last() =~= ls);
}

pub proof fn lemma_lines_text_concat(a: Seq<Seq<char>>, b: Seq<Seq<char>>)
    ensures
        lines_text(a + b) == lines_text(a) + lines_text(b),
    decreases b.len(),
{
    if b.len() == 0 {
        assert(a + b =~= a);
        assert(lines_text(b) =~= Seq::<char>::empty());
        assert(lines_text(a) + lines_text(b) =~= lines_text(a));
    } else {
        lemma_lines_text_concat(a, b.drop_last());
        assert((a + b).drop_last() =~= a + b.drop_last());
        assert((a + b).last() == b.last());
        assert(lines_text(a + b) =~= lines_text(a) + lines_text(b));
    }
}

/// Appends a line (the accumulated text `line`) and a line break, tracking
/// the lines written so far.
fn finish_line(out: &mut String, Ghost(start): Ghost<Seq<char>>, Ghost(ls): Ghost<Seq<Seq<char>>>, Ghost(line): Ghost<Seq<char>>) -> (r: Ghost<Seq<Seq<char>>>)
    requires
        old(out)@ == start + lines_text(ls) + line,
    ensures
        final(out)@ == start + lines_text(r@),
        r@ == ls.push(line),
{
    out.append("\n");
    proof {
        lemma_lines_text_push(ls, line);
        assert(final(out)@ =~= start + lines_text(ls.push(line)));
    }
    Ghost(ls.push(line))
}

/// Appends the lines of one server.
fn render_site(out: &mut String, site: &Site)
    ensures
        final(out)@ == old(out)@ + lines_text(site_lines(site@)),
{
    let ghost start = old(out)@;
    let ghost s = site@;
    assert(lines_text(Seq::<Seq<char>>::empty()) =~= Seq::<char>::empty());
    out.append(site.address.as_str());
    out.append(" {");
    let ghost l0: Seq<Seq<char>> = Seq::empty();
    assert(out@ =~= start + lines_text(l0) + (s.address + " {"@));
    let Ghost(ls) = finish_line(out, Ghost(start), Ghost(l0), Ghost(s.address + " {"@));
    assert(ls =~= seq![s.address + " {"@]);
    let ghost l1 = if s.encode_zstd || s.encode_gzip { ls.push("    "@ + "encode "@ + encoders(s)) } else { ls };
    if site.encode_zstd || site.encode_gzip {
        out.append("    ");
        out.append("encode ");
        if site.encode_zstd && site.encode_gzip {
            out.append("zstd gzip");
        } else if site.encode_zstd {
            out.append("zstd");
        } else {
            out.append("gzip");
        }
        assert(out@ =~= start + lines_text(ls) + ("    "@ + "encode "@ + encoders(s)));
        let Ghost(ls2) = finish_line(out, Ghost(start), Ghost(ls), Ghost("    "@ + "encode "@ + encoders(s)));
        assert(ls2 == l1);
    }
    let ghost l2 = if s.tls_internal { l1.push("    "@ + "tls internal"@) } else { l1 };
    if site.tls_internal {
        out.append("    ");
        out.append("tls internal");
        assert(out@ =~= start + lines_text(l1) + ("    "@ + "tls internal"@));
        let Ghost(ls2) = finish_line(out, Ghost(start), Ghost(l1), Ghost("    "@ + "tls internal"@));
        assert(ls2 == l2);
    }
    let ghost l3 = if s.rate_limit_enabled {
        l2.push("    "@ + "rate_limit {"@).push("        "@ + "zone "@ + s.rate_limit_zone + " {"@).push(
            "            "@ + "key {remote_host}"@,
        ).push("            "@ + "events "@ + decimal(s.rate_limit_events as nat)).push(
            "            "@ + "window "@ + s.rate_limit_window,
        ).push("        "@ + "}"@).push("    "@ + "}"@)
    } else {
        l2
    };
    if site.rate_limit_enabled {
        out.append("    ");
        out.append("rate_limit {");
        assert(out@ =~= start + lines_text(l2) + ("    "@ + "rate_limit {"@));
        let Ghost(a) = finish_line(out, Ghost(start), Ghost(l2), Ghost("    "@ + "rate_limit {"@));
        out.append("        ");
        out.append("zone ");
        out.append(site.rate_limit_zone.as_str());
        out.append(" {");
        assert(out@ =~= start + lines_text(a) + ("        "@ + "zone "@ + s.rate_limit_zone + " {"@));
        let Ghost(b) = finish_line(out, Ghost(start), Ghost(a), Ghost("        "@ + "zone "@ + s.rate_limit_zone + " {"@));
        out.append("            ");
        out.append("key {remote_host}");
        assert(out@ =~= start + lines_text(b) + ("            "@ + "key {remote_host}"@));
        let Ghost(c) = finish_line(out, Ghost(start), Ghost(b), Ghost("            "@ + "key {remote_host}"@));
        out.append("            ");
        out.append("events ");
        push_decimal(out, site.rate_limit_events);
        assert(out@ =~= start + lines_text(c) + ("            "@ + "events "@ + decimal(s.rate_limit_events as nat)));
        let Ghost(d) = finish_line(out, Ghost(start), Ghost(c), Ghost("            "@ + "events "@ + decimal(s.rate_limit_events as nat)));
        out.append("            ");
        out.append("window ");
        out.append(site.rate_limit_window.as_str());
        assert(out@ =~= start + lines_text(d) + ("            "@ + "window "@ + s.rate_limit_window));
        let Ghost(e) = finish_line(out, Ghost(start), Ghost(d), Ghost("            "@ + "window "@ + s.rate_limit_window));
        out.append("        ");
        out.append("}");
        assert(out@ =~= start + lines_text(e) + ("        "@ + "}"@));
        let Ghost(f) = finish_line(out, Ghost(start), Ghost(e), Ghost("        "@ + "}"@));
        out.append("    ");
        out.append("}");
        assert(out@ =~= start + lines_text(f) + ("    "@ + "}"@));
        let Ghost(g) = finish_line(out, Ghost(start), Ghost(f), Ghost("    "@ + "}"@));
        assert(g == l3);
    }
    out.append("    ");
    out.append("reverse_proxy ");
    out.append(site.upstream.as_str());
    assert(out@ =~= start + lines_text(l3) + ("    "@ + "reverse_proxy "@ + s.upstream));
    let Ghost(x) = finish_line(out, Ghost(start), Ghost(l3), Ghost("    "@ + "reverse_proxy "@ + s.upstream));
    out.append("}");
    assert(out@ =~= start + lines_text(x) + ("}"@));
    let Ghost(y) = finish_line(out, Ghost(start), Ghost(x), Ghost("}"@));
    assert(out@ =~= start + lines_text(y) + (Seq::<char>::empty()));
    let Ghost(z) = finish_line(out, Ghost(start), Ghost(y), Ghost(Seq::<char>::empty()));
    assert(z =~= site_lines(s));
}

/// The text of the managed block: each server's block, in order.
pub fn render_config(config: &CaddyConfig) -> (out: String)
    ensures
        out@ == render_config_text(config@),
{
    let mut out = String::new();
    let n = config.sites.len();
    let mut i: usize = 0;
    while i < n
        invariant
            0 <= i <= n == config.sites.len(),
            out@ == render_config_text(sites_view(config.sites@.take(i as int))),
        decreases n - i,
    {
        let ghost before = sites_view(config.sites@.take(i as int));
        render_site(&mut out, &config.sites[i]);
        proof {
            let after = sites_view(config.sites@.take((i + 1) as int));
            assert(after.drop_last() =~= before);
            assert(after.last() == config.sites@[i as int]@);
            lemma_lines_text_concat(config_lines(before), site_lines(after.last()));
        }
        i = i + 1;
    }
    assert(config.sites@.take(n as int) =~= config.sites@);
    assert(sites_view(Seq::<Site>::empty()) =~= Seq::<SiteView>::empty());
    out
}

// ---------------------------------------------------------------------------
// Parsing
// ---------------------------------------------------------------------------

/// What the parser has gathered after some lines: the finished servers, the
/// server being read, and whether a `rate_limit` block is open.
pub struct ParseState {
    pub sites: Seq<SiteView>,
    pub current: Option<SiteView>,
    pub in_rate_limit: bool,
}

pub open spec fn initial_state() -> ParseState {
    ParseState { sites: Seq::empty(), current: None, in_rate_limit: false }
}

/// The finished servers, with the server being read appended.
pub open spec fn finish(st: ParseState) -> Seq<SiteView> {
    match st.current {
        Some(c) => st.sites.push(c),
        None => st.sites,
    }
}

/// `line` without the prefix `p` (for a line that starts with it).
pub open spec fn after(line: Seq<char>, p: Seq<char>) -> Seq<char> {
    line.skip(p.len() as int)
}

/// A trimmed line that opens a new server block.
pub open spec fn is_site_header(line: Seq<char>) -> bool {
    &&& line.len() > 0
    &&& line.last() == '{'
    &&& !starts_with(line, "rate_limit"@)
    &&& !starts_with(line, "zone "@)
}

/// The server address that a header line names.
pub open spec fn header_address(line: Seq<char>) -> Seq<char> {
    trim(trim_end_char(line, '{'))
}

/// The zone that a `zone` line names (after its keyword).
pub open spec fn zone_name(value: Seq<char>) -> Seq<char> {
    match first_word(trim_end_char(value, '{')) {
        Some(w) => w,
        None => "dynamic"@,
    }
}

/// What a directive line (trimmed, inside a server block, not `}`) does to
/// the server being read and to the `rate_limit` flag.
pub open spec fn apply_directive(site: SiteView, line: Seq<char>, in_rl: bool) -> (SiteView, bool) {
    if starts_with(line, "reverse_proxy "@) {
        (SiteView { upstream: trim(after(line, "reverse_proxy "@)), ..site }, in_rl)
    } else if starts_with(line, "encode "@) {
        let v = after(line, "encode "@);
        (SiteView { encode_zstd: has_word(v, "zstd"@), encode_gzip: has_word(v, "gzip"@), ..site }, in_rl)
    } else if line == "tls internal"@ {
        (SiteView { tls_internal: true, ..site }, in_rl)
    } else if starts_with(line, "rate_limit"@) {
        (SiteView { rate_limit_enabled: true, ..site }, true)
    } else if in_rl {
        if starts_with(line, "zone "@) {
            (SiteView { rate_limit_zone: zone_name(after(line, "zone "@)), ..site }, in_rl)
        } else if starts_with(line, "events "@) {
            let events = match parse_u32(trim(after(line, "events "@))) {
                Some(n) => n,
                None => site.rate_limit_events,
            };
            (SiteView { rate_limit_events: events, ..site }, in_rl)
        } else if starts_with(line, "window "@) {
            (SiteView { rate_limit_window: trim(after(line, "window "@)), ..site }, in_rl)
        } else {
            (site, in_rl)
        }
    } else {
        (site, in_rl)
    }
}

/// What one line of the managed block does to the parser's state.
pub open spec fn step(st: ParseState, raw: Seq<char>) -> ParseState {
    let line = trim(raw);
    if line.len() == 0 || line[0] == '#' {
        st
    } else if is_site_header(line) {
        ParseState {
            sites: finish(st),
            current: Some(SiteView { address: header_address(line), ..default_site() }),
            in_rate_limit: false,
        }
    } else {
        match st.current {
            None => st,
            Some(site) => if line == "}"@ {
                ParseState { in_rate_limit: false, ..st }
            } else {
                let r = apply_directive(site, line, st.in_rate_limit);
                ParseState { current: Some(r.0), in_rate_limit: r.1, ..st }
            },
        }
    }
}

/// The state after the lines of `s` from index `i` on, where the current line
/// began at `a`.  Lines end at `\n`; a final line without one counts too.
pub open spec fn run_lines(s: Seq<char>, a: int, i: int, st: ParseState) -> ParseState
    decreases s.len() - i,
{
    if i < 0 || i >= s.len() {
        if 0 <= a < s.len() {
            step(st, s.subrange(a, s.len() as int))
        } else {
            st
        }
    } else if s[i] == '\n' {
        run_lines(s, i + 1, i + 1, step(st, s.subrange(a, i)))
    } else {
        run_lines(s, a, i + 1, st)
    }
}

/// The servers that the text of a managed block describes.
pub open spec fn parse_block(s: Seq<char>) -> Seq<SiteView> {
    finish(run_lines(s, 0, 0, initial_state()))
}

pub open spec fn opt_site_view(o: Option<Site>) -> Option<SiteView> {
    match o {
        Some(s) => Some(s@),
        None => None,
    }
}

pub open spec fn state_view(sites: Seq<Site>, current: Option<Site>, in_rl: bool) -> ParseState {
    ParseState { sites: sites_view(sites), current: opt_site_view(current), in_rate_limit: in_rl }
}

/// Applies a directive line to the server being read.
fn apply_directive_exec(site: &mut Site, line: &Vec<char>, in_rl: bool) -> (r: bool)
    ensures
        (final(site)@, r) == apply_directive(old(site)@, line@, in_rl),
{
    let ghost old_site = site@;
    let r = {
        if starts_with_str(line, "reverse_proxy ") {
            let v = slice_chars(line, chars_of("reverse_proxy ").len(), line.len());
            assert(v@ =~= after(line@, "reverse_proxy "@));
            let t = trim_chars(&v);
            site.upstream = string_of(&t, 0, t.len());
            in_rl
        } else if starts_with_str(line, "encode ") {
            let v = slice_chars(line, chars_of("encode ").len(), line.len());
            assert(v@ =~= after(line@, "encode "@));
            site.encode_zstd = has_word_chars(&v, "zstd");
            site.encode_gzip = has_word_chars(&v, "gzip");
            in_rl
        } else if equals_str(line, "tls internal") {
            site.tls_internal = true;
            in_rl
        } else if starts_with_str(line, "rate_limit") {
            site.rate_limit_enabled = true;
            true
        } else if in_rl {
            if starts_with_str(line, "zone ") {
                let v = slice_chars(line, chars_of("zone ").len(), line.len());
            assert(v@ =~= after(line@, "zone "@));
                let u = trim_end_char_chars(&v, '{');
                match first_word_chars(&u) {
                    Some(w) => {
                        site.rate_limit_zone = string_of(&w, 0, w.len());
                    },
                    None => {
                        site.rate_limit_zone = String::from_str("dynamic");
                    },
                }
            } else if starts_with_str(line, "events ") {
                let v = slice_chars(line, chars_of("events ").len(), line.len());
            assert(v@ =~= after(line@, "events "@));
                let t = trim_chars(&v);
                match parse_u32_chars(&t) {
                    Some(n) => {
                        site.rate_limit_events = n;
                    },
                    None => {},
                }
            } else if starts_with_str(line, "window ") {
                let v = slice_chars(line, chars_of("window ").len(), line.len());
            assert(v@ =~= after(line@, "window "@));
                let t = trim_chars(&v);
                site.rate_limit_window = string_of(&t, 0, t.len());
            }
            in_rl
        } else {
            in_rl
        }
    };
    proof {
        let expected = apply_directive(old_site, line@, in_rl);
        assert(site@.address == expected.0.address);
        assert(site@.upstream == expected.0.upstream);
        assert(site@.rate_limit_enabled == expected.0.rate_limit_enabled);
        assert(site@.rate_limit_zone == expected.0.rate_limit_zone);
        assert(site@.rate_limit_events == expected.0.rate_limit_events);
        assert(site@.rate_limit_window == expected.0.rate_limit_window);
        assert(site@.encode_zstd == expected.0.encode_zstd);
        assert(site@.encode_gzip == expected.0.encode_gzip);
        assert(site@.tls_internal == expected.0.tls_internal);
    }
    r
}

/// Feeds one line of the managed block to the parser.
fn parse_line(sites: &mut Vec<Site>, current: &mut Option<Site>, in_rl: &mut bool, raw: &Vec<char>)
    ensures
        state_view(final(sites)@, *final(current), *final(in_rl)) == step(
            state_view(old(sites)@, *old(current), *old(in_rl)),
            raw@,
        ),
{
    let ghost st = state_view(sites@, *current, *in_rl);
    let line = trim_chars(raw);
    let n = line.len();
    if n == 0 || line[0] == '#' {
        return;
    }
    if line[n - 1] == '{' && !starts_with_str(&line, "rate_limit") && !starts_with_str(&line, "zone ") {
        let ghost fin = finish(st);
        match current.take() {
            Some(site) => {
                sites.push(site);
            },
            None => {},
        }
        assert(sites_view(sites@) =~= fin);
        let stripped = trim_end_char_chars(&line, '{');
        let addr = trim_chars(&stripped);
        let mut site = Site::default();
        site.address = string_of(&addr, 0, addr.len());
        assert(site@.address == header_address(line@));
        assert(site@.upstream == default_site().upstream);
        assert(site@.rate_limit_zone == default_site().rate_limit_zone);
        assert(site@.rate_limit_events == default_site().rate_limit_events);
        assert(site@ == SiteView { address: header_address(line@), ..default_site() });
        *current = Some(site);
        *in_rl = false;
        assert(is_site_header(line@));
        return;
    }
    match current.take() {
        None => {},
        Some(mut site) => {
            if equals_str(&line, "}") {
                *in_rl = false;
            } else {
                let r = apply_directive_exec(&mut site, &line, *in_rl);
                *in_rl = r;
            }
            *current = Some(site);
        },
    }
}

/// The servers that the text of a managed block describes.
pub fn parse_managed_block(block: String) -> (config: CaddyConfig)
    ensures
        config@ == parse_block(block@),
{
    let v = chars_of(block.as_str());
    let n = v.len();
    let mut sites: Vec<Site> = Vec::new();
    let mut current: Option<Site> = None;
    let mut in_rl = false;
    let mut a: usize = 0;
    let mut i: usize = 0;
    assert(sites_view(sites@) =~= Seq::<SiteView>::empty());
    while i < n
        invariant
            0 <= a <= i <= n == v.len(),
            v@ == block@,
            run_lines(v@, a as int, i as int, state_view(sites@, current, in_rl)) == run_lines(
                v@,
                0,
                0,
                initial_state(),
            ),
        decreases n - i,
    {
        if v[i] == '\n' {
            let line = slice_chars(&v, a, i);
            parse_line(&mut sites, &mut current, &mut in_rl, &line);
            a = i + 1;
        }
        i = i + 1;
    }
    if a < n {
        let line = slice_chars(&v, a, n);
        parse_line(&mut sites, &mut current, &mut in_rl, &line);
    }
    let ghost fin = finish(state_view(sites@, current, in_rl));
    match current {
        Some(site) => {
            sites.push(site);
        },
        None => {},
    }
    let config = CaddyConfig { sites };
    assert(config@ =~= fin);
    config
}

// ---------------------------------------------------------------------------
// The document: unmanaged text around the managed block
// ---------------------------------------------------------------------------

/// The line that opens the managed block.
pub open spec fn begin_marker() -> Seq<char> {
    "# caddyup:begin"@
}

/// The line that closes the managed block.
pub open spec fn end_marker() -> Seq<char> {
    "# caddyup:end"@
}

/// Why a Caddyfile cannot be read.
#[derive(Clone, Copy, Debug, PartialEq, Eq, Structural)]
pub enum CaddyfileError {
    /// The managed block starts but does not end.
    MissingManagedBlockEnd,
}

impl CaddyfileError {
    /// The message that describes the error.
    pub fn message(&self) -> (m: &'static str)
        ensures
            m@ == "managed caddyup block starts but does not end"@,
    {
        match self {
            CaddyfileError::MissingManagedBlockEnd => "managed caddyup block starts but does not end",
        }
    }
}

/// How a Caddyfile's text divides into the text before the managed block,
/// the managed block's contents (if there is a block) and the text after it;
/// `None` when the block starts but does not end.  The block starts at the
/// first begin marker and ends at the first end marker after it.
pub open spec fn split_text(c: Seq<char>) -> Option<(Seq<char>, Option<Seq<char>>, Seq<char>)> {
    match find_from(c, begin_marker(), 0) {
        None => Some((c, None, Seq::empty())),
        Some(b) => {
            let ab = b + begin_marker().len();
            match find_from(c, end_marker(), ab) {
                None => None,
                Some(e) => Some(
                    (c.take(b), Some(c.subrange(ab, e)), c.skip(e + end_marker().len())),
                ),
            }
        },
    }
}

pub open spec fn opt_string_view(o: Option<String>) -> Option<Seq<char>> {
    match o {
        Some(s) => Some(s@),
        None => None,
    }
}

/// Splits a Caddyfile's text around its managed block.
pub fn split_managed_block(contents: &str) -> (r: Result<(String, Option<String>, String), CaddyfileError>)
    ensures
        match r {
            Ok((prefix, managed, suffix)) => split_text(contents@) == Some(
                (prefix@, opt_string_view(managed), suffix@),
            ),
            Err(e) => split_text(contents@) is None && e == CaddyfileError::MissingManagedBlockEnd,
        },
{
    let v = chars_of(contents);
    let n = v.len();
    match find_str(&v, "# caddyup:begin", 0) {
        None => {
            let whole = string_of(&v, 0, n);
            assert(v@.subrange(0, n as int) =~= v@);
            Ok((whole, None, String::new()))
        },
        Some(b) => {
            proof {
                lemma_find_from(v@, begin_marker(), 0);
            }
            let after_begin = b + chars_of("# caddyup:begin").len();
            match find_str(&v, "# caddyup:end", after_begin) {
                None => Err(CaddyfileError::MissingManagedBlockEnd),
                Some(e) => {
                    proof {
                        lemma_find_from(v@, end_marker(), after_begin as int);
                    }
                    let after_end = e + chars_of("# caddyup:end").len();
                    let prefix = string_of(&v, 0, b);
                    let managed = string_of(&v, after_begin, e);
                    let suffix = string_of(&v, after_end, n);
                    assert(prefix@ =~= v@.take(b as int));
                    assert(suffix@ =~= v@.skip(after_end as int));
                    Ok((prefix, Some(managed), suffix))
                },
            }
        },
    }
}

/// The text of a whole Caddyfile: the text before the managed block (without
/// trailing whitespace, followed by a blank line if there is any), the block
/// between its markers, and the text after it (without leading whitespace,
/// after a blank line, if there is any).
pub open spec fn render_document(prefix: Seq<char>, suffix: Seq<char>, sites: Seq<SiteView>) -> Seq<char> {
    let tp = trim_end(prefix);
    let ts = trim_start(suffix);
    (if tp.len() > 0 { tp + "\n\n"@ } else { tp }) + begin_marker() + "\n"@ + render_config_text(sites)
        + end_marker() + "\n"@ + (if ts.len() > 0 { "\n"@ + ts } else { Seq::empty() })
}

/// The servers of a managed block's contents, if there is a block.
pub open spec fn loaded_config(m: Option<Seq<char>>) -> Seq<SiteView> {
    match m {
        Some(t) => parse_block(t),
        None => Seq::empty(),
    }
}

/// A Caddyfile: where it lives, the unmanaged text around the managed block,
/// and the managed configuration.
#[derive(Clone, Debug)]
pub struct CaddyDocument {
    pub path: String,
    pub prefix: String,
    pub suffix: String,
    pub config: CaddyConfig,
}

impl CaddyDocument {
    /// The document that a Caddyfile's text `contents` describes (an absent
    /// file reads as empty text).
    pub fn load(path: String, contents: String) -> (r: Result<Self, CaddyfileError>)
        ensures
            match r {
                Ok(d) => {
                    &&& d.path@ == path@
                    &&& !contains(d.prefix@, begin_marker())
                    &&& split_text(contents@) matches Some((p, m, s))
                    &&& d.prefix@ == p
                    &&& d.suffix@ == s
                    &&& d.config@ == loaded_config(m)
                },
                Err(e) => split_text(contents@) is None && e == CaddyfileError::MissingManagedBlockEnd,
            },
    {
        let parts = split_managed_block(contents.as_str());
        match parts {
            Err(e) => Err(e),
            Ok((prefix, managed, suffix)) => {
                let config = match managed {
                    Some(m) => parse_managed_block(m),
                    None => CaddyConfig::default(),
                };
                proof {
                    let c = contents@;
                    reveal_strlit("# caddyup:begin");
                    lemma_find_from(c, begin_marker(), 0);
                    assert forall|i: int| !occurs_at(prefix@, begin_marker(), i) by {
                        match find_from(c, begin_marker(), 0) {
                            Some(b) => {
                                let ab = b + begin_marker().len();
                                assert(find_from(c, end_marker(), ab) is Some);
                                assert(prefix@ == c.take(b));
                                if occurs_at(prefix@, begin_marker(), i) {
                                    assert(prefix@.subrange(i, i + begin_marker().len()) =~= c.subrange(
                                        i,
                                        i + begin_marker().len(),
                                    ));
                                    assert(occurs_at(c, begin_marker(), i));
                                }
                            },
                            None => {
                                assert(prefix@ == c);
                            },
                        }
                    }
                }
                Ok(CaddyDocument { path, prefix, suffix, config })
            },
        }
    }

    /// The whole Caddyfile text of this document.
    pub fn render(&self) -> (out: String)
        ensures
            out@ == render_document(self.prefix@, self.suffix@, self.config@),
    {
        let mut output = String::new();
        let pv = chars_of(self.prefix.as_str());
        let tp = trim_end_chars(&pv);
        let tps = string_of(&tp, 0, tp.len());
        assert(tp@.subrange(0, tp@.len() as int) =~= tp@);
        output.append(tps.as_str());
        if tp.len() > 0 {
            output.append("\n\n");
        }
        output.append("# caddyup:begin");
        output.append("\n");
        let body = render_config(&self.config);
        output.append(body.as_str());
        output.append("# caddyup:end");
        output.append("\n");
        let sv = chars_of(self.suffix.as_str());
        let ts = trim_start_chars(&sv);
        let ghost before_suffix = output@;
        if ts.len() > 0 {
            output.append("\n");
            let tss = string_of(&ts, 0, ts.len());
            assert(ts@.subrange(0, ts@.len() as int) =~= ts@);
            output.append(tss.as_str());
        } else {
            assert(output@ =~= before_suffix + Seq::<char>::empty());
        }
        output
    }
}

/// The Caddyfile to edit in the directory `cwd`: `Caddyfile` if it exists,
/// else `caddyfile` if that exists, else a new `Caddyfile`.
pub open spec fn caddyfile_choice(cwd: Seq<char>, upper_exists: bool, lower_exists: bool) -> Seq<char> {
    if upper_exists {
        joined_path(cwd, "Caddyfile"@)
    } else if lower_exists {
        joined_path(cwd, "caddyfile"@)
    } else {
        joined_path(cwd, "Caddyfile"@)
    }
}

/// Chooses the Caddyfile in `cwd`, given whether `cwd/Caddyfile` and
/// `cwd/caddyfile` exist.
pub fn find_caddyfile(cwd: String, upper_exists: bool, lower_exists: bool) -> (r: Result<String, CaddyfileError>)
    ensures
        r is Ok,
        r matches Ok(p) ==> p@ == caddyfile_choice(cwd@, upper_exists, lower_exists),
{
    if upper_exists {
        Ok(join(cwd.as_str(), "Caddyfile"))
    } else if lower_exists {
        Ok(join(cwd.as_str(), "caddyfile"))
    } else {
        Ok(join(cwd.as_str(), "Caddyfile"))
    }
}

} // verus!

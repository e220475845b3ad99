//! The editor's state and the operations that the keys trigger.
use vstd::prelude::*;
use vstd::string::StringExecFns;
use crate::caddyfile::CaddyDocument;
use crate::model::{CaddyConfig, Site, SiteView, default_site, sites_view};
use crate::text::{
    trim, trim_chars, chars_of, string_of, push_decimal, decimal, parse_u32, parse_u32_chars,
    lemma_parse_decimal, lemma_decimal, is_digit, is_ws, lemma_trim_padded, padded, pad_end,
};

verus! {

/// A setting of a server that the editor shows and edits.
#[derive(Clone, Copy, Debug, PartialEq, Eq, Structural)]
pub enum Field {
    Address,
    Upstream,
    RateLimitEnabled,
    RateLimitEvents,
    RateLimitWindow,
    RateLimitZone,
    EncodeZstd,
    EncodeGzip,
    TlsInternal,
}

/// The number of fields.
pub const FIELD_COUNT: usize = 9;

/// The fields in display order.
pub open spec fn field_at(i: int) -> Field {
    if i == 0 {
        Field::Address
    } else if i == 1 {
        Field::Upstream
    } else if i == 2 {
        Field::RateLimitEnabled
    } else if i == 3 {
        Field::RateLimitEvents
    } else if i == 4 {
        Field::RateLimitWindow
    } else if i == 5 {
        Field::RateLimitZone
    } else if i == 6 {
        Field::EncodeZstd
    } else if i == 7 {
        Field::EncodeGzip
    } else {
        Field::TlsInternal
    }
}

/// The name the editor shows for a field.
pub open spec fn label_text(f: Field) -> Seq<char> {
    match f {
        Field::Address => "Server address"@,
        Field::Upstream => "Reverse proxy"@,
        Field::RateLimitEnabled => "Rate limit"@,
        Field::RateLimitEvents => "Events"@,
        Field::RateLimitWindow => "Window"@,
        Field::RateLimitZone => "Zone"@,
        Field::EncodeZstd => "Encode zstd"@,
        Field::EncodeGzip => "Encode gzip"@,
        Field::TlsInternal => "TLS internal"@,
    }
}

impl Field {
    /// The field at position `index` of the display order.
    pub fn at(index: usize) -> (f: Field)
        requires
            index < FIELD_COUNT,
        ensures
            f == field_at(index as int),
    {
        if index == 0 {
            Field::Address
        } else if index == 1 {
            Field::Upstream
        } else if index == 2 {
            Field::RateLimitEnabled
        } else if index == 3 {
            Field::RateLimitEvents
        } else if index == 4 {
            Field::RateLimitWindow
        } else if index == 5 {
            Field::RateLimitZone
        } else if index == 6 {
            Field::EncodeZstd
        } else if index == 7 {
            Field::EncodeGzip
        } else {
            Field::TlsInternal
        }
    }

    /// The name the editor shows for this field.
    pub fn label(self) -> (l: &'static str)
        ensures
            l@ == label_text(self),
    {
        match self {
            Field::Address => "Server address",
            Field::Upstream => "Reverse proxy",
            Field::RateLimitEnabled => "Rate limit",
            Field::RateLimitEvents => "Events",
            Field::RateLimitWindow => "Window",
            Field::RateLimitZone => "Zone",
            Field::EncodeZstd => "Encode zstd",
            Field::EncodeGzip => "Encode gzip",
            Field::TlsInternal => "TLS internal",
        }
    }
}

/// Whether keys move between fields or edit the selected one.
#[derive(Clone, Copy, Debug, PartialEq, Eq, Structural)]
pub enum Mode {
    Navigate,
    Edit,
}

/// `on` or `off`.
pub open spec fn bool_text(b: bool) -> Seq<char> {
    if b {
        "on"@
    } else {
        "off"@
    }
}

/// How a field of a server is shown.
pub open spec fn field_text(s: SiteView, f: Field) -> Seq<char> {
    match f {
        Field::Address => s.address,
        Field::Upstream => s.upstream,
        Field::RateLimitEnabled => bool_text(s.rate_limit_enabled),
        Field::RateLimitEvents => decimal(s.rate_limit_events as nat),
        Field::RateLimitWindow => s.rate_limit_window,
        Field::RateLimitZone => s.rate_limit_zone,
        Field::EncodeZstd => bool_text(s.encode_zstd),
        Field::EncodeGzip => bool_text(s.encode_gzip),
        Field::TlsInternal => bool_text(s.tls_internal),
    }
}

/// The on/off fields, which editing toggles.
pub open spec fn is_toggle(f: Field) -> bool {
    f == Field::RateLimitEnabled || f == Field::EncodeZstd || f == Field::EncodeGzip || f
        == Field::TlsInternal
}

/// A server with the on/off field `f` flipped.
pub open spec fn toggled(s: SiteView, f: Field) -> SiteView {
    match f {
        Field::RateLimitEnabled => SiteView { rate_limit_enabled: !s.rate_limit_enabled, ..s },
        Field::EncodeZstd => SiteView { encode_zstd: !s.encode_zstd, ..s },
        Field::EncodeGzip => SiteView { encode_gzip: !s.encode_gzip, ..s },
        Field::TlsInternal => SiteView { tls_internal: !s.tls_internal, ..s },
        _ => s,
    }
}

/// `value`, or `fallback` when `value` is blank.
pub open spec fn or_fallback(value: Seq<char>, fallback: Seq<char>) -> Seq<char> {
    if trim(value).len() == 0 {
        fallback
    } else {
        value
    }
}

/// A server after committing the (trimmed) text `value` to the field `f`.
pub open spec fn committed(s: SiteView, f: Field, value: Seq<char>) -> SiteView {
    match f {
        Field::Address => SiteView { address: or_fallback(value, "example.com"@), ..s },
        Field::Upstream => SiteView { upstream: or_fallback(value, "127.0.0.1:3000"@), ..s },
        Field::RateLimitEvents => SiteView {
            rate_limit_events: match parse_u32(value) {
                Some(n) => n,
                None => s.rate_limit_events,
            },
            ..s
        },
        Field::RateLimitWindow => SiteView { rate_limit_window: or_fallback(value, "1m"@), ..s },
        Field::RateLimitZone => SiteView { rate_limit_zone: or_fallback(value, "dynamic"@), ..s },
        _ => s,
    }
}

/// Moving `amount` steps from `index` through `len` positions, wrapping
/// around at both ends.
pub open spec fn wrap(index: int, len: int, amount: int) -> int {
    (index + amount) % len
}

/// The editor: the document, which server and field are selected, the mode,
/// the text being typed, the status line, and whether to quit.
#[derive(Clone, Debug)]
pub struct App {
    pub document: CaddyDocument,
    pub selected_site: usize,
    pub selected_field: usize,
    pub mode: Mode,
    pub input: String,
    pub status: String,
    pub should_quit: bool,
}

/// The servers of an editor's document.
pub open spec fn app_sites(a: App) -> Seq<SiteView> {
    a.document.config@
}

/// Two editors hold the same document text and file path.
pub open spec fn same_document_text(a: App, b: App) -> bool {
    &&& a.document.path == b.document.path
    &&& a.document.prefix == b.document.prefix
    &&& a.document.suffix == b.document.suffix
}

/// Two editors agree on everything but their servers and status line.
pub open spec fn same_but_sites_and_status(a: App, b: App) -> bool {
    &&& same_document_text(a, b)
    &&& a.selected_site == b.selected_site
    &&& a.selected_field == b.selected_field
    &&& a.mode == b.mode
    &&& a.input == b.input
    &&& a.should_quit == b.should_quit
}

impl App {
    /// The editor's invariant: there is at least one server, and the
    /// selected server and field exist.
    pub open spec fn wf(self) -> bool {
        &&& self.document.config.sites.len() >= 1
        &&& self.selected_site < self.document.config.sites.len()
        &&& self.selected_field < FIELD_COUNT
    }
}

/// The editor after moving the server selection `amount` steps, wrapping
/// around (to 0 when there is no server).
pub open spec fn moved_site(a: App, amount: int) -> App {
    App {
        selected_site: if a.document.config.sites.len() == 0 {
            0
        } else {
            wrap(as_signed(a.selected_site), a.document.config.sites.len() as int, amount) as usize
        },
        ..a
    }
}

/// `after` is `before` with a default server added and selected.
pub open spec fn adds_site(before: App, after: App) -> bool {
    &&& same_document_text(after, before)
    &&& app_sites(after) == app_sites(before).push(default_site())
    &&& after.selected_site == before.document.config.sites.len()
    &&& after.selected_field == 0
    &&& after.mode == before.mode
    &&& after.input == before.input
    &&& after.should_quit == before.should_quit
    &&& after.status@ == "Added server"@
}

/// `after` is `before` with the selected server deleted and the selection
/// kept within the servers, or unchanged but for the status line when
/// `before` has one server or none.
pub open spec fn deletes_site(before: App, after: App) -> bool {
    &&& same_document_text(after, before)
    &&& after.selected_field == before.selected_field
    &&& after.mode == before.mode
    &&& after.input == before.input
    &&& after.should_quit == before.should_quit
    &&& if before.document.config.sites.len() <= 1 {
        &&& app_sites(after) == app_sites(before)
        &&& after.selected_site == before.selected_site
        &&& after.status@ == "Keep at least one server; edit it or add another first"@
    } else {
        &&& app_sites(after) == app_sites(before).remove(before.selected_site as int)
        &&& after.selected_site == if before.selected_site < before.document.config.sites.len()
            - 1 {
            before.selected_site
        } else {
            (before.document.config.sites.len() - 2) as usize
        }
        &&& after.status@ == "Deleted server"@
    }
}

/// `after` is `before` once editing of the selected field has begun: an
/// on/off field of the selected server is flipped at once; any other field
/// has its text copied into the input, in edit mode.
pub open spec fn begins_edit(before: App, after: App) -> bool {
    let f = field_at(before.selected_field as int);
    let i = before.selected_site as int;
    if i < before.document.config.sites.len() && is_toggle(f) {
        &&& same_but_sites_and_status(after, before)
        &&& app_sites(after) == app_sites(before).update(i, toggled(app_sites(before)[i], f))
        &&& after.status@ == "Toggled "@ + label_text(f)
    } else {
        &&& same_document_text(after, before)
        &&& app_sites(after) == app_sites(before)
        &&& after.selected_site == before.selected_site
        &&& after.selected_field == before.selected_field
        &&& after.should_quit == before.should_quit
        &&& after.input@ == if i < before.document.config.sites.len() {
            field_text(app_sites(before)[i], f)
        } else {
            Seq::<char>::empty()
        }
        &&& after.mode == Mode::Edit
        &&& after.status@ == "Editing "@ + label_text(f)
    }
}

/// `index` read as a signed number (`index as isize`).
pub open spec fn as_signed(index: usize) -> int {
    if index <= isize::MAX {
        index as int
    } else {
        index - (usize::MAX + 1)
    }
}

/// `index` moved `amount` steps through `len` positions, wrapping around.
pub fn wrap_index(index: usize, len: usize, amount: isize) -> (r: usize)
    requires
        0 < len <= isize::MAX,
        isize::MIN <= as_signed(index) + amount <= isize::MAX,
    ensures
        r == wrap(as_signed(index), len as int, amount as int),
        r < len,
{
    let signed: i128 = if index <= isize::MAX as usize {
        index as i128
    } else {
        index as i128 - (usize::MAX as i128 + 1)
    };
    let s: i128 = signed + amount as i128;
    let l: u128 = len as u128;
    if s >= 0 {
        let r = (s as u128) % l;
        r as usize
    } else {
        let k: u128 = (0 - s) as u128;
        let m: u128 = k % l;
        proof {
            let q = k as int / l as int;
            vstd::arithmetic::div_mod::lemma_fundamental_div_mod(k as int, l as int);
            assert(k == l * q + m);
            if m == 0 {
                assert(s == (0 - q) * l + 0) by (nonlinear_arith)
                    requires
                        k == l * q + m,
                        m == 0,
                        s == 0 - k,
                ;
                vstd::arithmetic::div_mod::lemma_fundamental_div_mod_converse(s as int, l as int, 0 - q, 0);
            } else {
                assert(s == (0 - q - 1) * l + (l - m)) by (nonlinear_arith)
                    requires
                        k == l * q + m,
                        s == 0 - k,
                ;
                vstd::arithmetic::div_mod::lemma_fundamental_div_mod_converse(
                    s as int,
                    l as int,
                    0 - q - 1,
                    (l - m) as int,
                );
            }
        }
        if m == 0 {
            0
        } else {
            (l - m) as usize
        }
    }
}

/// `on` or `off`.
pub fn bool_label(value: bool) -> (l: &'static str)
    ensures
        l@ == bool_text(value),
{
    if value {
        "on"
    } else {
        "off"
    }
}

/// `value`, or `fallback` when `value` is blank.
pub fn empty_fallback(value: String, fallback: &str) -> (r: String)
    ensures
        r@ == or_fallback(value@, fallback@),
{
    let v = chars_of(value.as_str());
    let t = trim_chars(&v);
    if t.len() == 0 {
        String::from_str(fallback)
    } else {
        value
    }
}

/// How a field of a server is shown.
pub fn field_display(site: &Site, field: Field) -> (r: String)
    ensures
        r@ == field_text(site@, field),
{
    match field {
        Field::Address => site.address.clone(),
        Field::Upstream => site.upstream.clone(),
        Field::RateLimitEnabled => String::from_str(bool_label(site.rate_limit_enabled)),
        Field::RateLimitEvents => {
            let mut s = String::new();
            push_decimal(&mut s, site.rate_limit_events);
            assert(s@ =~= decimal(site.rate_limit_events as nat));
            s
        },
        Field::RateLimitWindow => site.rate_limit_window.clone(),
        Field::RateLimitZone => site.rate_limit_zone.clone(),
        Field::EncodeZstd => String::from_str(bool_label(site.encode_zstd)),
        Field::EncodeGzip => String::from_str(bool_label(site.encode_gzip)),
        Field::TlsInternal => String::from_str(bool_label(site.tls_internal)),
    }
}

/// The width of the column of field names.
pub const LABEL_WIDTH: usize = 18;

/// The name column of a field's row: its name padded to [`LABEL_WIDTH`].
pub fn field_row_label(field: Field) -> (r: String)
    ensures
        r@ == padded(label_text(field), LABEL_WIDTH as nat),
{
    pad_end(field.label(), LABEL_WIDTH)
}

/// The key help shown in each mode.
pub open spec fn help_text(mode: Mode) -> Seq<char> {
    match mode {
        Mode::Navigate => "arrows/hjkl move  enter edit/toggle  a add  d delete  s save  q quit"@,
        Mode::Edit => "enter apply  esc cancel"@,
    }
}

/// The key help for the footer.
pub fn footer_help(mode: Mode) -> (h: &'static str)
    ensures
        h@ == help_text(mode),
{
    match mode {
        Mode::Navigate => "arrows/hjkl move  enter edit/toggle  a add  d delete  s save  q quit",
        Mode::Edit => "enter apply  esc cancel",
    }
}

/// The first line of the edit box: the field's name and a colon.
pub fn edit_prompt(field: Field) -> (r: String)
    ensures
        r@ == label_text(field) + ":"@,
{
    concat(field.label(), ":")
}

/// `first` followed by `second`.
fn concat(first: &str, second: &str) -> (r: String)
    ensures
        r@ == first@ + second@,
{
    let mut r = String::from_str(first);
    r.append(second);
    r
}

impl App {
    /// The editor for `document`, which gets one default server if it has
    /// none, with the first server and field selected.
    pub fn new(document: CaddyDocument) -> (app: Self)
        ensures
            app.document.path == document.path,
            app.document.prefix == document.prefix,
            app.document.suffix == document.suffix,
            app_sites(app) == (if document.config@.len() == 0 {
                seq![default_site()]
            } else {
                document.config@
            }),
            app.selected_site == 0,
            app.selected_field == 0,
            app.mode == Mode::Navigate,
            app.input@ == Seq::<char>::empty(),
            app.status@ == "Loaded "@ + document.path@,
            !app.should_quit,
            app.wf(),
    {
        let mut document = document;
        if document.config.sites.len() == 0 {
            document.config = CaddyConfig::with_example_site();
        }
        assert(document.config@.len() == document.config.sites@.len());
        let status = concat("Loaded ", document.path.as_str());
        App {
            document,
            selected_site: 0,
            selected_field: 0,
            mode: Mode::Navigate,
            input: String::new(),
            status,
            should_quit: false,
        }
    }

    /// The selected server, if the selection is within the servers.
    pub fn current_site(&self) -> (r: Option<&Site>)
        ensures
            match r {
                Some(s) => self.selected_site < self.document.config.sites.len()
                    && *s == self.document.config.sites@[self.selected_site as int],
                None => self.selected_site >= self.document.config.sites.len(),
            },
            self.wf() ==> r is Some,
    {
        if self.selected_site < self.document.config.sites.len() {
            Some(&self.document.config.sites[self.selected_site])
        } else {
            None
        }
    }

    /// Moves the server selection `amount` steps, wrapping around.
    pub fn move_site(&mut self, amount: isize)
        requires
            old(self).document.config.sites.len() > 0 ==> {
                &&& old(self).document.config.sites.len() <= isize::MAX
                &&& isize::MIN <= as_signed(old(self).selected_site) + amount <= isize::MAX
            },
        ensures
            *final(self) == moved_site(*old(self), amount as int),
            final(self).document.config.sites.len() > 0 ==> final(self).selected_site
                < final(self).document.config.sites.len(),
            old(self).wf() ==> final(self).wf(),
    {
        let len = self.document.config.sites.len();
        if len == 0 {
            self.selected_site = 0;
            return;
        }
        self.selected_site = wrap_index(self.selected_site, len, amount);
    }

    /// Moves the field selection `amount` steps, wrapping around.
    pub fn move_field(&mut self, amount: isize)
        requires
            isize::MIN <= as_signed(old(self).selected_field) + amount <= isize::MAX,
        ensures
            *final(self) == (App {
                selected_field: wrap(as_signed(old(self).selected_field), FIELD_COUNT as int, amount as int)
                    as usize,
                ..*old(self)
            }),
            final(self).selected_field < FIELD_COUNT,
            old(self).wf() ==> final(self).wf(),
    {
        self.selected_field = wrap_index(self.selected_field, FIELD_COUNT, amount);
    }

    /// Adds a server with the default settings and selects it.
    pub fn add_site(&mut self)
        requires
            old(self).document.config.sites.len() < usize::MAX,
        ensures
            adds_site(*old(self), *final(self)),
            final(self).wf(),
    {
        let ghost before = self.document.config.sites@;
        self.document.config.sites.push(Site::default());
        assert(sites_view(self.document.config.sites@) =~= sites_view(before).push(default_site()));
        self.selected_site = self.document.config.sites.len() - 1;
        self.selected_field = 0;
        self.status = String::from_str("Added server");
    }

    /// Deletes the selected server, unless it is the only one.
    pub fn delete_site(&mut self)
        requires
            old(self).document.config.sites.len() > 1 ==> old(self).selected_site
                < old(self).document.config.sites.len(),
        ensures
            deletes_site(*old(self), *final(self)),
            old(self).wf() ==> final(self).wf(),
    {
        if self.document.config.sites.len() <= 1 {
            self.status = String::from_str("Keep at least one server; edit it or add another first");
            return;
        }
        let ghost before = self.document.config.sites@;
        self.document.config.sites.remove(self.selected_site);
        assert(sites_view(self.document.config.sites@) =~= sites_view(before).remove(
            old(self).selected_site as int,
        ));
        let last = self.document.config.sites.len() - 1;
        if self.selected_site > last {
            self.selected_site = last;
        }
        self.status = String::from_str("Deleted server");
    }

    /// Flips the on/off field `field` of the selected server; false (and no
    /// change) when there is no selected server or the field is not on/off.
    fn toggle_field(&mut self, field: Field) -> (done: bool)
        ensures
            done == (old(self).selected_site < old(self).document.config.sites.len() && is_toggle(
                field,
            )),
            same_but_sites_and_status(*final(self), *old(self)),
            done ==> app_sites(*final(self)) == app_sites(*old(self)).update(
                old(self).selected_site as int,
                toggled(app_sites(*old(self))[old(self).selected_site as int], field),
            ),
            done ==> final(self).status@ == "Toggled "@ + label_text(field),
            !done ==> *final(self) == *old(self),
    {
        let i = self.selected_site;
        if i >= self.document.config.sites.len() {
            return false;
        }
        let ghost before = self.document.config.sites@;
        match field {
            Field::RateLimitEnabled => {
                let v = !self.document.config.sites[i].rate_limit_enabled;
                self.document.config.sites[i].rate_limit_enabled = v;
            },
            Field::EncodeZstd => {
                let v = !self.document.config.sites[i].encode_zstd;
                self.document.config.sites[i].encode_zstd = v;
            },
            Field::EncodeGzip => {
                let v = !self.document.config.sites[i].encode_gzip;
                self.document.config.sites[i].encode_gzip = v;
            },
            Field::TlsInternal => {
                let v = !self.document.config.sites[i].tls_internal;
                self.document.config.sites[i].tls_internal = v;
            },
            _ => {
                return false;
            },
        }
        assert(sites_view(self.document.config.sites@) =~= sites_view(before).update(
            i as int,
            toggled(sites_view(before)[i as int], field),
        ));
        self.status = concat("Toggled ", field.label());
        true
    }

    /// The text of `field` of the selected server (empty without one).
    fn field_value(&self, field: Field) -> (r: String)
        ensures
            r@ == if self.selected_site < self.document.config.sites.len() {
                field_text(app_sites(*self)[self.selected_site as int], field)
            } else {
                Seq::<char>::empty()
            },
    {
        match self.current_site() {
            None => String::new(),
            Some(site) => field_display(site, field),
        }
    }

    /// Starts editing the selected field: on/off fields flip at once; other
    /// fields copy their text into the input and enter edit mode.
    pub fn begin_edit(&mut self)
        requires
            old(self).selected_field < FIELD_COUNT,
        ensures
            begins_edit(*old(self), *final(self)),
            old(self).wf() ==> final(self).wf(),
    {
        let field = Field::at(self.selected_field);
        if self.toggle_field(field) {
            assert(app_sites(*self).len() == self.document.config.sites@.len());
            assert(app_sites(*old(self)).len() == old(self).document.config.sites@.len());
            return;
        }
        self.input = self.field_value(field);
        self.mode = Mode::Edit;
        self.status = concat("Editing ", field.label());
    }

    /// Leaves edit mode without changing the server.
    pub fn cancel_edit(&mut self)
        ensures
            same_document_text(*final(self), *old(self)),
            app_sites(*final(self)) == app_sites(*old(self)),
            final(self).selected_site == old(self).selected_site,
            final(self).selected_field == old(self).selected_field,
            final(self).should_quit == old(self).should_quit,
            final(self).mode == Mode::Navigate,
            final(self).input@ == Seq::<char>::empty(),
            final(self).status@ == "Edit cancelled"@,
            old(self).wf() ==> final(self).wf(),
    {
        self.mode = Mode::Navigate;
        self.input = String::new();
        self.status = String::from_str("Edit cancelled");
    }

    /// Stores the typed text (trimmed) in the selected field of the selected
    /// server and leaves edit mode; does nothing without a selected server.
    pub fn commit_edit(&mut self)
        requires
            old(self).selected_field < FIELD_COUNT,
        ensures
            ({
                let f = field_at(old(self).selected_field as int);
                let i = old(self).selected_site as int;
                if i < old(self).document.config.sites.len() {
                    &&& same_document_text(*final(self), *old(self))
                    &&& app_sites(*final(self)) == app_sites(*old(self)).update(
                        i,
                        committed(app_sites(*old(self))[i], f, trim(old(self).input@)),
                    )
                    &&& final(self).selected_site == old(self).selected_site
                    &&& final(self).selected_field == old(self).selected_field
                    &&& final(self).should_quit == old(self).should_quit
                    &&& final(self).input@ == Seq::<char>::empty()
                    &&& final(self).mode == Mode::Navigate
                    &&& final(self).status@ == "Updated "@ + label_text(f)
                } else {
                    *final(self) == *old(self)
                }
            }),
            old(self).wf() ==> final(self).wf(),
    {
        let field = Field::at(self.selected_field);
        let iv = chars_of(self.input.as_str());
        let tv = trim_chars(&iv);
        let value = string_of(&tv, 0, tv.len());
        assert(tv@.subrange(0, tv@.len() as int) =~= tv@);
        let i = self.selected_site;
        if i >= self.document.config.sites.len() {
            return;
        }
        let ghost before = self.document.config.sites@;
        match field {
            Field::Address => {
                self.document.config.sites[i].address = empty_fallback(value, "example.com");
            },
            Field::Upstream => {
                self.document.config.sites[i].upstream = empty_fallback(value, "127.0.0.1:3000");
            },
            Field::RateLimitEvents => {
                match parse_u32_chars(&tv) {
                    Some(n) => {
                        self.document.config.sites[i].rate_limit_events = n;
                    },
                    None => {},
                }
            },
            Field::RateLimitWindow => {
                self.document.config.sites[i].rate_limit_window = empty_fallback(value, "1m");
            },
            Field::RateLimitZone => {
                self.document.config.sites[i].rate_limit_zone = empty_fallback(value, "dynamic");
            },
            _ => {},
        }
        assert(sites_view(self.document.config.sites@) =~= sites_view(before).update(
            i as int,
            committed(sites_view(before)[i as int], field, tv@),
        ));
        self.input = String::new();
        self.mode = Mode::Navigate;
        self.status = concat("Updated ", field.label());
    }

    /// Adds a typed character to the input.
    pub fn push_input(&mut self, c: char)
        ensures
            *final(self) == (App { input: final(self).input, ..*old(self) }),
            final(self).input@ == old(self).input@.push(c),
            old(self).wf() ==> final(self).wf(),
    {
        crate::text::push_char(&mut self.input, c);
    }

    /// Removes the last character of the input, if any.
    pub fn pop_input(&mut self)
        ensures
            *final(self) == (App { input: final(self).input, ..*old(self) }),
            final(self).input@ == if old(self).input@.len() > 0 {
                old(self).input@.drop_last()
            } else {
                old(self).input@
            },
            old(self).wf() ==> final(self).wf(),
    {
        let v = chars_of(self.input.as_str());
        if v.len() > 0 {
            self.input = string_of(&v, 0, v.len() - 1);
            assert(self.input@ =~= old(self).input@.drop_last());
        }
    }

    /// Reports the outcome of writing the document to its file.
    pub fn save(&mut self, outcome: Result<(), String>)
        ensures
            same_document_text(*final(self), *old(self)),
            app_sites(*final(self)) == app_sites(*old(self)),
            final(self).selected_site == old(self).selected_site,
            final(self).selected_field == old(self).selected_field,
            final(self).mode == old(self).mode,
            final(self).input == old(self).input,
            final(self).should_quit == old(self).should_quit,
            final(self).status@ == match outcome {
                Ok(()) => "Saved "@ + old(self).document.path@,
                Err(message) => "Save failed: "@ + message@,
            },
            old(self).wf() ==> final(self).wf(),
    {
        match outcome {
            Ok(()) => {
                self.status = concat("Saved ", self.document.path.as_str());
            },
            Err(message) => {
                self.status = concat("Save failed: ", message.as_str());
            },
        }
    }
}

// ---------------------------------------------------------------------------
// Laws
// ---------------------------------------------------------------------------

/// Moving the selection always lands on a valid position.
pub proof fn law_wrap_in_range(index: int, len: int, amount: int)
    requires
        len > 0,
    ensures
        0 <= wrap(index, len, amount) < len,
{
}

/// Moving the selection `amount` steps and then `-amount` steps returns to
/// where it started.
pub proof fn law_move_back(index: int, len: int, amount: int)
    requires
        0 <= index < len,
    ensures
        wrap(wrap(index, len, amount), len, -amount) == index,
{
    let w = wrap(index, len, amount);
    let q = (index + amount) / len;
    vstd::arithmetic::div_mod::lemma_fundamental_div_mod(index + amount, len);
    assert(w + (0 - amount) == (0 - q) * len + index) by (nonlinear_arith)
        requires
            index + amount == len * q + w,
    ;
    vstd::arithmetic::div_mod::lemma_fundamental_div_mod_converse(w + (0 - amount), len, 0 - q, index);
}

/// Toggling an on/off field twice leaves the server as it was.
pub proof fn law_toggle_twice(s: SiteView, f: Field)
    ensures
        toggled(toggled(s, f), f) == s,
{
}

/// Moving the server selection `amount` steps and then `-amount` steps
/// returns to the server that was selected.
pub proof fn law_move_site_back(a: App, amount: int)
    requires
        a.wf(),
        a.document.config.sites.len() <= isize::MAX,
    ensures
        moved_site(moved_site(a, amount), -amount) == a,
{
    let len = a.document.config.sites.len() as int;
    let b = moved_site(a, amount);
    law_wrap_in_range(a.selected_site as int, len, amount);
    law_move_back(a.selected_site as int, len, amount);
    assert(as_signed(a.selected_site) == a.selected_site);
    assert(as_signed(b.selected_site) == b.selected_site);
}

/// Deleting the server that adding a server just selected gives back the
/// servers there were before, with the last of them selected.
pub proof fn law_delete_undoes_add(a: App, b: App, c: App)
    requires
        a.document.config.sites.len() >= 1,
        adds_site(a, b),
        deletes_site(b, c),
    ensures
        app_sites(c) == app_sites(a),
        same_document_text(c, a),
        c.selected_site == a.document.config.sites.len() - 1,
        c.selected_field == 0,
        c.mode == a.mode,
        c.input == a.input,
        c.should_quit == a.should_quit,
        c.status@ == "Deleted server"@,
{
    assert(app_sites(a).len() == a.document.config.sites@.len());
    assert(app_sites(b).len() == b.document.config.sites@.len());
    assert(app_sites(a).push(default_site()).remove(app_sites(a).len() as int) =~= app_sites(a));
}

/// Beginning to edit an on/off field twice leaves the servers as they were:
/// the field is flipped and flipped back.
pub proof fn law_toggle_edit_twice(a: App, b: App, c: App)
    requires
        a.selected_site < a.document.config.sites.len(),
        a.selected_field < FIELD_COUNT,
        is_toggle(field_at(a.selected_field as int)),
        begins_edit(a, b),
        begins_edit(b, c),
    ensures
        app_sites(c) == app_sites(a),
        same_but_sites_and_status(c, a),
        c.status@ == b.status@,
{
    let i = a.selected_site as int;
    let f = field_at(a.selected_field as int);
    assert(app_sites(a).len() == a.document.config.sites@.len());
    assert(app_sites(b).len() == b.document.config.sites@.len());
    law_toggle_twice(app_sites(a)[i], f);
    assert(app_sites(c) =~= app_sites(a));
}

/// Deleting, with more than one server, removes exactly the selected server:
/// the servers before it stay where they were, those after it move up by
/// one, and the selection stays on a server.
pub proof fn law_delete_removes_selected(a: App, b: App)
    requires
        a.document.config.sites.len() > 1,
        a.selected_site < a.document.config.sites.len(),
        deletes_site(a, b),
    ensures
        app_sites(b).len() == app_sites(a).len() - 1,
        forall|k: int| 0 <= k < a.selected_site ==> app_sites(b)[k] == app_sites(a)[k],
        forall|k: int|
            a.selected_site <= k < app_sites(b).len() ==> app_sites(b)[k] == app_sites(a)[k + 1],
        b.selected_site < app_sites(b).len(),
{
    assert(app_sites(a).len() == a.document.config.sites@.len());
}

/// Beginning to edit an on/off field of the selected server flips exactly
/// that setting: the field shows the other of `on`/`off`, every other field
/// of that server shows what it showed, and the other servers are untouched.
pub proof fn law_toggle_flips_only_its_field(a: App, b: App)
    requires
        a.selected_site < a.document.config.sites.len(),
        a.selected_field < FIELD_COUNT,
        is_toggle(field_at(a.selected_field as int)),
        begins_edit(a, b),
    ensures
        ({
            let i = a.selected_site as int;
            let f = field_at(a.selected_field as int);
            &&& app_sites(b).len() == app_sites(a).len()
            &&& field_text(app_sites(b)[i], f) != field_text(app_sites(a)[i], f)
            &&& (field_text(app_sites(b)[i], f) == "on"@ || field_text(app_sites(b)[i], f) == "off"@)
            &&& forall|g: Field| g != f ==> field_text(app_sites(b)[i], g) == field_text(
                app_sites(a)[i],
                g,
            )
            &&& forall|k: int| 0 <= k < app_sites(a).len() && k != i ==> app_sites(b)[k] == app_sites(a)[k]
        }),
{
    reveal_strlit("on");
    reveal_strlit("off");
    assert(app_sites(a).len() == a.document.config.sites@.len());
    let i = a.selected_site as int;
    let f = field_at(a.selected_field as int);
    assert("on"@.len() != "off"@.len());
    assert(app_sites(b)[i] == toggled(app_sites(a)[i], f));
}

/// Committing a text field never leaves it blank.
pub proof fn law_commit_not_blank(s: SiteView, f: Field, value: Seq<char>)
    requires
        f == Field::Address || f == Field::Upstream || f == Field::RateLimitWindow || f
            == Field::RateLimitZone,
    ensures
        trim(field_text(committed(s, f, value), f)).len() > 0,
{
    reveal_strlit("example.com");
    reveal_strlit("127.0.0.1:3000");
    reveal_strlit("1m");
    reveal_strlit("dynamic");
    let fb = match f {
        Field::Address => "example.com"@,
        Field::Upstream => "127.0.0.1:3000"@,
        Field::RateLimitWindow => "1m"@,
        _ => "dynamic"@,
    };
    if trim(value).len() == 0 {
        let e = Seq::<char>::empty();
        lemma_trim_padded(e, fb, e);
        assert(e + fb + e =~= fb);
    }
}

/// Opening a field for editing and applying it unchanged leaves the server as
/// it was, when the field's text has no surrounding whitespace and is not
/// blank.
pub proof fn law_edit_unchanged(s: SiteView, f: Field)
    requires
        !is_toggle(f),
        f != Field::RateLimitEvents ==> {
            &&& field_text(s, f).len() > 0
            &&& !is_ws(field_text(s, f)[0])
            &&& !is_ws(field_text(s, f).last())
        },
    ensures
        committed(s, f, trim(field_text(s, f))) == s,
{
    let t = field_text(s, f);
    let e = Seq::<char>::empty();
    if f == Field::RateLimitEvents {
        lemma_decimal(s.rate_limit_events as nat);
        assert(is_digit(t[0]));
        assert(is_digit(t.last()));
        lemma_trim_padded(e, t, e);
        assert(e + t + e =~= t);
        lemma_parse_decimal(s.rate_limit_events);
    } else {
        lemma_trim_padded(e, t, e);
        assert(e + t + e =~= t);
    }
}

} // verus!

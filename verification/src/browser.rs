//! Browser tabs: the record of each open browser window, the plan for opening a new one,
//! and the scripts that steer an open one.
//!
//! The windows themselves belong to the desktop runtime; this manager decides their ids,
//! sizes and labels, keeps one tab record per open window, and answers each request on a
//! window with the script to run in it, or with the error when no such window is open.

use vstd::prelude::*;
use crate::ids::{lemma_numbered_injective, numbered, numbered_id};
use crate::table::{
    has_key, insert_entry, key_index, key_seq, keys_unique, lemma_keys_no_duplicates,
    lemma_lookup_at, lemma_lookup_insert, lemma_lookup_remove, lemma_view_values_insert,
    lemma_view_values_keys, lemma_view_values_lookup, lemma_view_values_remove, lookup,
    option_view, remove_entry, view_values, Table,
};
use crate::text::{join2, join3, option_text};

verus! {

/// Represents a browser tab/window
#[derive(Debug, Clone)]
pub struct BrowserTab {
    pub id: String,
    pub url: String,
    pub title: String,
    pub loading: bool,
}

/// A tab with its texts taken as their characters.
pub struct BrowserTabView {
    pub id: Seq<char>,
    pub url: Seq<char>,
    pub title: Seq<char>,
    pub loading: bool,
}

impl View for BrowserTab {
    type V = BrowserTabView;

    open spec fn view(&self) -> BrowserTabView {
        BrowserTabView { id: self.id@, url: self.url@, title: self.title@, loading: self.loading }
    }
}

impl BrowserTab {
    /// A copy of the tab.
    pub fn duplicate(&self) -> (r: BrowserTab)
        ensures
            r@ == self@,
    {
        BrowserTab {
            id: self.id.clone(),
            url: self.url.clone(),
            title: self.title.clone(),
            loading: self.loading,
        }
    }
}

/// Configuration for a browser window/tab
#[derive(Debug, Clone)]
pub struct BrowserConfig {
    pub url: String,
    pub label: Option<String>,
    pub width: Option<u32>,
    pub height: Option<u32>,
    pub resizable: bool,
    pub fullscreen: bool,
    pub decorations: bool,
    pub always_on_top: bool,
}

/// How to open a new browser window.
#[derive(Debug, Clone)]
pub struct BrowserWindowPlan {
    pub id: String,
    pub label: String,
    pub url: String,
    pub title: String,
    pub width: u32,
    pub height: u32,
    pub resizable: bool,
    pub fullscreen: bool,
    pub decorations: bool,
    pub always_on_top: bool,
}

/// A plan with its texts taken as their characters.
pub struct BrowserWindowPlanView {
    pub id: Seq<char>,
    pub label: Seq<char>,
    pub url: Seq<char>,
    pub title: Seq<char>,
    pub width: u32,
    pub height: u32,
    pub resizable: bool,
    pub fullscreen: bool,
    pub decorations: bool,
    pub always_on_top: bool,
}

impl View for BrowserWindowPlan {
    type V = BrowserWindowPlanView;

    open spec fn view(&self) -> BrowserWindowPlanView {
        BrowserWindowPlanView {
            id: self.id@,
            label: self.label@,
            url: self.url@,
            title: self.title@,
            width: self.width,
            height: self.height,
            resizable: self.resizable,
            fullscreen: self.fullscreen,
            decorations: self.decorations,
            always_on_top: self.always_on_top,
        }
    }
}

/// The id given to the `n`-th browser window.
pub open spec fn browser_id_for(n: u64) -> Seq<char> {
    numbered("browser-"@, n as nat)
}

/// The plan for opening a window with the given id: the configured label or else the id,
/// the configured size or else 800 by 600, and the configured window flags.
pub open spec fn window_plan(id: Seq<char>, config: BrowserConfig) -> BrowserWindowPlanView {
    BrowserWindowPlanView {
        id,
        label: match option_text(config.label) {
            Some(l) => l,
            None => id,
        },
        url: config.url@,
        title: "Agent OS Browser"@,
        width: match config.width {
            Some(w) => w,
            None => 800,
        },
        height: match config.height {
            Some(h) => h,
            None => 600,
        },
        resizable: config.resizable,
        fullscreen: config.fullscreen,
        decorations: config.decorations,
        always_on_top: config.always_on_top,
    }
}

/// A window is planned under the id it was given, on the configured URL, with the
/// configured label (else the id), the configured size (else 800 by 600), and each
/// configured window flag in its own field.
pub proof fn lemma_plan_follows_config(id: Seq<char>, config: BrowserConfig)
    ensures
        window_plan(id, config).id == id,
        window_plan(id, config).url == config.url@,
        window_plan(id, config).title == "Agent OS Browser"@,
        config.label matches Some(l) ==> window_plan(id, config).label == l@,
        config.label is None ==> window_plan(id, config).label == id,
        config.width matches Some(w) ==> window_plan(id, config).width == w,
        config.width is None ==> window_plan(id, config).width == 800,
        config.height matches Some(h) ==> window_plan(id, config).height == h,
        config.height is None ==> window_plan(id, config).height == 600,
        window_plan(id, config).resizable == config.resizable,
        window_plan(id, config).fullscreen == config.fullscreen,
        window_plan(id, config).decorations == config.decorations,
        window_plan(id, config).always_on_top == config.always_on_top,
{
}

/// The tab recorded for a new window has its id, the URL it opened on, the placeholder title
/// "Loading...", and is loading.
pub proof fn lemma_new_tab_is_loading(id: Seq<char>, url: Seq<char>)
    ensures
        loading_tab(id, url).id == id,
        loading_tab(id, url).url == url,
        loading_tab(id, url).title == "Loading..."@,
        loading_tab(id, url).loading,
{
}

/// The tab recorded for a window that has just opened on `url`.
pub open spec fn loading_tab(id: Seq<char>, url: Seq<char>) -> BrowserTabView {
    BrowserTabView { id, url, title: "Loading..."@, loading: true }
}

/// The text with each single quote escaped by a backslash.
pub open spec fn escape_quotes(s: Seq<char>) -> Seq<char>
    decreases s.len(),
{
    if s.len() == 0 {
        Seq::empty()
    } else {
        escape_quotes(s.drop_last()) + if s.last() == '\'' {
            seq!['\\', '\'']
        } else {
            seq![s.last()]
        }
    }
}

/// The script that sends a window to `url`.
pub open spec fn navigate_script(url: Seq<char>) -> Seq<char> {
    "window.location.href = '"@ + escape_quotes(url) + "';"@
}

/// The error for a request on a window that is not open.
pub open spec fn window_not_found(id: Seq<char>) -> Seq<char> {
    "Browser window not found: "@ + id
}

/// Escapes each single quote in `s` with a backslash.
pub fn escape_single_quotes(s: &str) -> (r: String)
    ensures
        r@ == escape_quotes(s@),
{
    let n = s.unicode_len();
    let mut out = String::new();
    let mut i: usize = 0;
    while i < n
        invariant
            n == s@.len(),
            i <= n,
            out@ == escape_quotes(s@.take(i as int)),
        decreases n - i,
    {
        let c = s.get_char(i);
        proof {
            assert(s@.take(i + 1).drop_last() =~= s@.take(i as int));
            assert(s@.take(i + 1).last() == c);
        }
        if c == '\'' {
            proof {
                reveal_strlit("\\'");
            }
            out.append("\\'");
        } else {
            let piece = s.substring_char(i, i + 1);
            assert(piece@ =~= seq![c]);
            out.append(piece);
        }
        i = i + 1;
    }
    assert(s@.take(n as int) =~= s@);
    out
}

/// The manager never gives the same window id twice.
pub proof fn lemma_browser_ids_never_repeat(a: u64, b: u64)
    requires
        a != b,
    ensures
        browser_id_for(a) != browser_id_for(b),
{
    if browser_id_for(a) == browser_id_for(b) {
        lemma_numbered_injective("browser-"@, a as nat, b as nat);
    }
}

/// A text's escape is the escapes of its pieces, one after the other.
pub proof fn lemma_escape_concat(a: Seq<char>, b: Seq<char>)
    ensures
        escape_quotes(a + b) == escape_quotes(a) + escape_quotes(b),
    decreases b.len(),
{
    if b.len() == 0 {
        assert(a + b =~= a);
        assert(escape_quotes(a) + escape_quotes(b) =~= escape_quotes(a));
    } else {
        lemma_escape_concat(a, b.drop_last());
        assert((a + b).drop_last() =~= a + b.drop_last());
        assert((a + b).last() == b.last());
    }
}

/// A text without single quotes goes into a script unchanged.
pub proof fn lemma_escape_keeps_plain_text(s: Seq<char>)
    requires
        !s.contains('\''),
    ensures
        escape_quotes(s) == s,
    decreases s.len(),
{
    if s.len() > 0 {
        assert(!s.drop_last().contains('\'')) by {
            if s.drop_last().contains('\'') {
                let i = choose|i: int| 0 <= i < s.drop_last().len() && s.drop_last()[i] == '\'';
                assert(s[i] == '\'');
            }
        }
        lemma_escape_keeps_plain_text(s.drop_last());
        assert(s.last() != '\'') by {
            assert(s[s.len() - 1] == s.last());
        }
        assert(s.drop_last().push(s.last()) =~= s);
    }
}

/// The navigation script sets the window's location to the URL as a quoted text: a URL
/// without single quotes goes in as it is, and one with them has each escaped.
pub proof fn lemma_navigate_script_quotes_url(url: Seq<char>)
    ensures
        navigate_script(url) == "window.location.href = '"@ + escape_quotes(url) + "';"@,
        !url.contains('\'') ==> navigate_script(url) == "window.location.href = '"@ + url + "';"@,
        escape_quotes(seq!['\'']) == seq!['\\', '\''],
{
    if !url.contains('\'') {
        lemma_escape_keeps_plain_text(url);
    }
    let q = seq!['\''];
    assert(q.drop_last() =~= Seq::<char>::empty());
    assert(escape_quotes(q.drop_last()) =~= Seq::<char>::empty());
    assert(escape_quotes(q) =~= seq!['\\', '\'']);
}

/// Every single quote of an escaped text follows a backslash, so the text cannot end the
/// script's quoted string.
pub proof fn lemma_escaped_quotes_follow_backslash(s: Seq<char>, i: int)
    requires
        0 <= i < escape_quotes(s).len(),
        escape_quotes(s)[i] == '\'',
    ensures
        i > 0,
        escape_quotes(s)[i - 1] == '\\',
    decreases s.len(),
{
    let prev = escape_quotes(s.drop_last());
    if i >= prev.len() {
        assert(s.last() == '\'');
    } else {
        lemma_escaped_quotes_follow_backslash(s.drop_last(), i);
    }
}

/// A window recorded by `add_tab` is what a read of its id gives back: loading, on the
/// given URL, with the placeholder title; reads of other ids are unchanged.
pub proof fn lemma_added_tab_found(
    tabs: Seq<(Seq<char>, BrowserTabView)>,
    id: Seq<char>,
    url: Seq<char>,
    q: Seq<char>,
)
    requires
        keys_unique(tabs),
    ensures
        lookup(insert_entry(tabs, id, loading_tab(id, url)), q) == if q == id {
            Some(loading_tab(id, url))
        } else {
            lookup(tabs, q)
        },
{
    lemma_lookup_insert(tabs, id, loading_tab(id, url), q);
}

/// Once a window is closed every request on it is refused: it has no tab any more.
pub proof fn lemma_closed_window_gone(tabs: Seq<(Seq<char>, BrowserTabView)>, id: Seq<char>)
    requires
        keys_unique(tabs),
    ensures
        !has_key(remove_entry(tabs, id), id),
{
    lemma_lookup_remove(tabs, id, id);
}

/// The state of a browser manager: the open tabs by id and the count of ids given out.
pub struct BrowserManagerView {
    pub tabs: Seq<(Seq<char>, BrowserTabView)>,
    pub next_id: u64,
}

/// `id` is one of the ids given out before the count reached `next_id`.
pub open spec fn issued_browser_id(id: Seq<char>, next_id: u64) -> bool {
    exists|n: u64| n < next_id && id == browser_id_for(n)
}

/// What every browser manager keeps: one tab per id, and only ids it has given out.
pub open spec fn browser_wf(m: BrowserManagerView) -> bool {
    &&& keys_unique(m.tabs)
    &&& forall|i: int| 0 <= i < m.tabs.len() ==> issued_browser_id(#[trigger] m.tabs[i].0, m.next_id)
}

/// What `url::Url::parse` answers for a text: `None` when the text is a URL, else the
/// message of the parse error.
pub uninterp spec fn url_parse_error(s: Seq<char>) -> Option<Seq<char>>;

/// Parses `s` with `url::Url::parse`, the parse that turning a text into a `Url` makes. The
/// contract claims only that the answer, the error's message included, depends on the text
/// alone; which texts parse is left to the parser.
#[verifier::external_body]
fn parse_url(s: &str) -> (r: Result<(), String>)
    ensures
        match r {
            Ok(_) => url_parse_error(s@) is None,
            Err(e) => url_parse_error(s@) == Some(e@),
        },
{
    match url::Url::parse(s) {
        Ok(_) => Ok(()),
        Err(e) => Err(e.to_string()),
    }
}

/// What follows a successful parse in `create_browser`: `open` was handed the plan for the
/// window under the next id; if it opened the window, that id is returned and the window's
/// tab is recorded as loading `config.url`; if it failed, its error is returned and the tabs
/// are unchanged.
pub open spec fn opened_as_planned<F: FnOnce(BrowserWindowPlan) -> Result<(), String>>(
    open: F,
    old: BrowserManagerView,
    new: BrowserManagerView,
    config: BrowserConfig,
    r: Result<String, String>,
) -> bool {
    exists|plan: BrowserWindowPlan, out: Result<(), String>|
        #[trigger] open.ensures((plan,), out) && plan@ == window_plan(
            browser_id_for(old.next_id),
            config,
        ) && match out {
            Ok(_) => {
                &&& r matches Ok(id) && id@ == browser_id_for(old.next_id)
                &&& new.tabs == insert_entry(
                    old.tabs,
                    browser_id_for(old.next_id),
                    loading_tab(browser_id_for(old.next_id), config.url@),
                )
            },
            Err(e) => r == Err::<String, String>(e) && new.tabs == old.tabs,
        }
}

/// Manager for browser windows/tabs
pub struct BrowserManager {
    tabs: Table<String, BrowserTab>,
    next_id: u64,
}

impl View for BrowserManager {
    type V = BrowserManagerView;

    closed spec fn view(&self) -> BrowserManagerView {
        BrowserManagerView { tabs: view_values(self.tabs@), next_id: self.next_id }
    }
}

impl BrowserManager {
    #[verifier::type_invariant]
    spec fn well_formed(self) -> bool {
        &&& keys_unique(self.tabs@)
        &&& browser_wf(self@)
    }

    /// Confirms what every browser manager keeps: one tab per id, and only ids it has given
    /// out.
    pub fn check_invariants(&self)
        ensures
            browser_wf(self@),
    {
        proof {
            use_type_invariant(self);
        }
    }

    /// How many ids the manager has given out, which is the number in the next id.
    pub fn ids_given(&self) -> (n: u64)
        ensures
            n == self@.next_id,
    {
        self.next_id
    }

    /// Create a new browser manager
    pub fn new() -> (m: Self)
        ensures
            m@.tabs == Seq::<(Seq<char>, BrowserTabView)>::empty(),
            m@.next_id == 0,
            browser_wf(m@),
    {
        let tabs: Table<String, BrowserTab> = Table::new();
        assert(view_values(tabs@) =~= Seq::<(Seq<char>, BrowserTabView)>::empty());
        BrowserManager { tabs, next_id: 0 }
    }

    /// Gives out the next id ("browser-0", "browser-1", ...) and plans the window to open
    /// under it.
    fn begin_browser(&mut self, config: &BrowserConfig) -> (p: BrowserWindowPlan)
        requires
            old(self)@.next_id < u64::MAX,
        ensures
            p@ == window_plan(browser_id_for(old(self)@.next_id), *config),
            final(self)@ == (BrowserManagerView {
                next_id: (old(self)@.next_id + 1) as u64,
                ..old(self)@
            }),
    {
        proof {
            use_type_invariant(&*self);
        }
        let id = numbered_id("browser-", self.next_id);
        proof {
            assert forall|i: int| 0 <= i < self@.tabs.len() implies issued_browser_id(
                #[trigger] self@.tabs[i].0,
                (self.next_id + 1) as u64,
            ) by {
                assert(issued_browser_id(self@.tabs[i].0, self.next_id));
                let n = choose|n: u64| n < self.next_id && self@.tabs[i].0 == browser_id_for(n);
                assert(n < self.next_id + 1 && self@.tabs[i].0 == browser_id_for(n));
            }
        }
        self.next_id = self.next_id + 1;
        let label = match &config.label {
            Some(l) => l.clone(),
            None => id.clone(),
        };
        let width = match config.width {
            Some(w) => w,
            None => 800,
        };
        let height = match config.height {
            Some(h) => h,
            None => 600,
        };
        BrowserWindowPlan {
            id,
            label,
            url: config.url.clone(),
            title: String::from_str("Agent OS Browser"),
            width,
            height,
            resizable: config.resizable,
            fullscreen: config.fullscreen,
            decorations: config.decorations,
            always_on_top: config.always_on_top,
        }
    }

    /// Records the tab of a window that has opened on `url`: loading, with a placeholder
    /// title.
    fn add_tab(&mut self, id: String, url: String)
        requires
            issued_browser_id(id@, old(self)@.next_id),
        ensures
            final(self)@ == (BrowserManagerView {
                tabs: insert_entry(old(self)@.tabs, id@, loading_tab(id@, url@)),
                ..old(self)@
            }),
    {
        proof {
            use_type_invariant(&*self);
        }
        let tab = BrowserTab {
            id: id.clone(),
            url,
            title: String::from_str("Loading..."),
            loading: true,
        };
        let mut tabs: Table<String, BrowserTab> = Table::new();
        std::mem::swap(&mut tabs, &mut self.tabs);
        tabs.check_keys();
        let ghost before = tabs@;
        let ghost old_view = old(self)@;
        let ghost k = id@;
        tabs.insert(id, tab);
        proof {
            lemma_view_values_insert(before, tab.id@, tab);
            lemma_view_values_keys(tabs@);
            let t = view_values(tabs@);
            assert forall|i: int| 0 <= i < t.len() implies issued_browser_id(
                #[trigger] t[i].0,
                old_view.next_id,
            ) by {
                if t[i].0 != k {
                    lemma_lookup_at(t, i);
                    lemma_lookup_insert(old_view.tabs, k, loading_tab(k, tab.url@), t[i].0);
                    let j = key_index(old_view.tabs, t[i].0);
                    assert(old_view.tabs[j].0 == t[i].0);
                }
            }
        }
        self.tabs = tabs;
    }

    /// Create a new browser tab/window: gives out the next id, parses the configured URL,
    /// has `open` open the window as planned, and records the window's tab once it is open.
    /// A URL that does not parse is refused with the parser's message before any window is
    /// opened; when `open` fails its error is returned. Either way the id is used up and no
    /// tab is recorded.
    pub fn create_browser<F: FnOnce(BrowserWindowPlan) -> Result<(), String>>(
        &mut self,
        config: BrowserConfig,
        open: F,
    ) -> (r: Result<String, String>)
        requires
            old(self)@.next_id < u64::MAX,
            forall|plan: BrowserWindowPlan| #[trigger] open.requires((plan,)),
        ensures
            final(self)@.next_id == old(self)@.next_id + 1,
            !has_key(old(self)@.tabs, browser_id_for(old(self)@.next_id)),
            r is Ok ==> final(self)@.tabs.len() == old(self)@.tabs.len() + 1,
            browser_wf(final(self)@),
            match url_parse_error(config.url@) {
                Some(e) => (r matches Err(x) && x@ == e) && final(self)@.tabs == old(self)@.tabs,
                None => opened_as_planned(open, old(self)@, final(self)@, config, r),
            },
    {
        let parsed = parse_url(config.url.as_str());
        self.create_browser_parsed(config, parsed, open)
    }

    /// The rest of `create_browser` once the configured URL has been parsed, with `parsed`
    /// the parser's answer: gives out the next id; on a parse error returns it; otherwise has
    /// `open` open the window as planned and records the window's tab once it is open.
    pub fn create_browser_parsed<F: FnOnce(BrowserWindowPlan) -> Result<(), String>>(
        &mut self,
        config: BrowserConfig,
        parsed: Result<(), String>,
        open: F,
    ) -> (r: Result<String, String>)
        requires
            old(self)@.next_id < u64::MAX,
            forall|plan: BrowserWindowPlan| #[trigger] open.requires((plan,)),
        ensures
            final(self)@.next_id == old(self)@.next_id + 1,
            !has_key(old(self)@.tabs, browser_id_for(old(self)@.next_id)),
            r is Ok ==> final(self)@.tabs.len() == old(self)@.tabs.len() + 1,
            browser_wf(final(self)@),
            match parsed {
                Err(e) => r == Err::<String, String>(e) && final(self)@.tabs == old(self)@.tabs,
                Ok(_) => opened_as_planned(open, old(self)@, final(self)@, config, r),
            },
    {
        proof {
            use_type_invariant(&*self);
            let fresh = browser_id_for(old(self)@.next_id);
            if has_key(old(self)@.tabs, fresh) {
                let j = key_index(old(self)@.tabs, fresh);
                assert(issued_browser_id(old(self)@.tabs[j].0, old(self)@.next_id));
                let n = choose|n: u64| n < old(self)@.next_id && old(self)@.tabs[j].0 == browser_id_for(n);
                lemma_browser_ids_never_repeat(n, old(self)@.next_id);
            }
        }
        let plan = self.begin_browser(&config);
        match parsed {
            Ok(()) => {},
            Err(e) => {
                proof {
                    use_type_invariant(&*self);
                }
                return Err(e);
            },
        }
        let id = plan.id.clone();
        let url = plan.url.clone();
        let ghost given = plan;
        let opened = open(plan);
        assert(open.ensures((given,), opened));
        match opened {
            Ok(()) => {
                assert(issued_browser_id(id@, self@.next_id)) by {
                    assert(old(self)@.next_id < self@.next_id && id@ == browser_id_for(old(self)@.next_id));
                }
                self.add_tab(id.clone(), url);
                proof {
                    use_type_invariant(&*self);
                }
                Ok(id)
            },
            Err(e) => {
                proof {
                    use_type_invariant(&*self);
                }
                Err(e)
            },
        }
    }

    /// Records that the window's page moved to `url`; nothing changes for an unknown id.
    pub fn update_tab_url(&mut self, id: &str, url: String)
        ensures
            has_key(old(self)@.tabs, id@) ==> final(self)@ == (BrowserManagerView {
                tabs: insert_entry(
                    old(self)@.tabs,
                    id@,
                    BrowserTabView { url: url@, ..lookup(old(self)@.tabs, id@)->0 },
                ),
                ..old(self)@
            }),
            !has_key(old(self)@.tabs, id@) ==> final(self)@ == old(self)@,
            browser_wf(final(self)@),
    {
        proof {
            use_type_invariant(&*self);
        }
        let key = id.to_owned();
        let mut tabs: Table<String, BrowserTab> = Table::new();
        std::mem::swap(&mut tabs, &mut self.tabs);
        tabs.check_keys();
        proof {
            lemma_view_values_keys(tabs@);
        }
        let ghost old_view = old(self)@;
        match tabs.find(&key) {
            None => {},
            Some(i) => {
                let mut tab = tabs.value_at(i).duplicate();
                tab.url = url;
                let ghost before = tabs@;
                tabs.set_value_at(i, tab);
                proof {
                    lemma_lookup_at(before, i as int);
                    lemma_lookup_at(view_values(before), i as int);
                    assert(view_values(tabs@) =~= insert_entry(view_values(before), key@, tab@));
                    let t = view_values(tabs@);
                    assert forall|j: int| 0 <= j < t.len() implies issued_browser_id(
                        #[trigger] t[j].0,
                        old_view.next_id,
                    ) by {
                        assert(t[j].0 == old_view.tabs[j].0);
                    }
                }
            },
        }
        self.tabs = tabs;
    }

    /// Get a browser tab by ID
    pub fn get_tab(&self, id: &str) -> (r: Option<BrowserTab>)
        ensures
            option_view(r) == lookup(self@.tabs, id@),
    {
        self.tabs.check_keys();
        let key = id.to_owned();
        proof {
            lemma_view_values_lookup(self.tabs@, key@);
        }
        match self.tabs.get(&key) {
            Some(t) => Some(t.duplicate()),
            None => None,
        }
    }

    /// Whether a window is open under `id`
    pub fn has_window(&self, id: &str) -> (b: bool)
        ensures
            b == has_key(self@.tabs, id@),
    {
        let key = id.to_owned();
        proof {
            lemma_view_values_keys(self.tabs@);
        }
        self.tabs.contains_key(&key)
    }

    /// The script that sends the window to `url`, with each single quote in it escaped; the
    /// window must be open
    pub fn navigate(&self, id: &str, url: &str) -> (r: Result<String, String>)
        ensures
            r is Ok <==> has_key(self@.tabs, id@),
            r matches Ok(s) ==> s@ == navigate_script(url@),
            r matches Err(e) ==> e@ == window_not_found(id@),
    {
        if self.has_window(id) {
            let escaped = escape_single_quotes(url);
            Ok(join3("window.location.href = '", escaped.as_str(), "';"))
        } else {
            Err(join2("Browser window not found: ", id))
        }
    }

    /// The script that reloads the current page; the window must be open
    pub fn reload(&self, id: &str) -> (r: Result<String, String>)
        ensures
            r is Ok <==> has_key(self@.tabs, id@),
            r matches Ok(s) ==> s@ == "window.location.reload();"@,
            r matches Err(e) ==> e@ == window_not_found(id@),
    {
        if self.has_window(id) {
            Ok(String::from_str("window.location.reload();"))
        } else {
            Err(join2("Browser window not found: ", id))
        }
    }

    /// The script that goes back in history; the window must be open
    pub fn back(&self, id: &str) -> (r: Result<String, String>)
        ensures
            r is Ok <==> has_key(self@.tabs, id@),
            r matches Ok(s) ==> s@ == "window.history.back();"@,
            r matches Err(e) ==> e@ == window_not_found(id@),
    {
        if self.has_window(id) {
            Ok(String::from_str("window.history.back();"))
        } else {
            Err(join2("Browser window not found: ", id))
        }
    }

    /// The script that goes forward in history; the window must be open
    pub fn forward(&self, id: &str) -> (r: Result<String, String>)
        ensures
            r is Ok <==> has_key(self@.tabs, id@),
            r matches Ok(s) ==> s@ == "window.history.forward();"@,
            r matches Err(e) ==> e@ == window_not_found(id@),
    {
        if self.has_window(id) {
            Ok(String::from_str("window.history.forward();"))
        } else {
            Err(join2("Browser window not found: ", id))
        }
    }

    /// Close a browser tab/window: its record goes; closing an unknown id changes nothing
    pub fn close(&mut self, id: &str) -> (r: Result<(), String>)
        ensures
            r is Ok,
            final(self)@ == (BrowserManagerView {
                tabs: remove_entry(old(self)@.tabs, id@),
                ..old(self)@
            }),
            browser_wf(final(self)@),
    {
        proof {
            use_type_invariant(&*self);
        }
        let key = id.to_owned();
        let mut tabs: Table<String, BrowserTab> = Table::new();
        std::mem::swap(&mut tabs, &mut self.tabs);
        tabs.check_keys();
        let ghost before = tabs@;
        let ghost old_view = old(self)@;
        tabs.remove(&key);
        proof {
            lemma_view_values_remove(before, key@);
            lemma_view_values_keys(tabs@);
            let t = view_values(tabs@);
            assert forall|i: int| 0 <= i < t.len() implies issued_browser_id(
                #[trigger] t[i].0,
                old_view.next_id,
            ) by {
                lemma_lookup_at(t, i);
                lemma_lookup_remove(old_view.tabs, key@, t[i].0);
                let j = key_index(old_view.tabs, t[i].0);
                assert(old_view.tabs[j].0 == t[i].0);
            }
        }
        self.tabs = tabs;
        Ok(())
    }

    /// List all browser tab IDs, in the order the windows opened
    pub fn list_tabs(&self) -> (r: Vec<String>)
        ensures
            r@.map_values(|s: String| s@) == key_seq(self@.tabs),
            r@.map_values(|s: String| s@).no_duplicates(),
    {
        proof {
            use_type_invariant(self);
            lemma_view_values_keys(self.tabs@);
            lemma_keys_no_duplicates(self@.tabs);
        }
        self.tabs.keys()
    }

    /// Get the number of browser tabs
    pub fn len(&self) -> (n: usize)
        ensures
            n == self@.tabs.len(),
    {
        self.tabs.len()
    }

    /// Check if the manager is empty
    pub fn is_empty(&self) -> (b: bool)
        ensures
            b == (self@.tabs.len() == 0),
    {
        self.len() == 0
    }
}

} // verus!

//! The way through a bastion's menu: second factor, search, asset selection, prompt.
use crate::assets;
use crate::assets::{
    contains_menu_prompt, contains_mfa_prompt, contains_page_prompt, parse_asset_rows,
    parse_page_status, select_exact_asset_id,
};
use crate::output;
use crate::output::{ends_at_prompt, has_ascii_escapes};
use crate::pty::PtyShell;
use crate::search;
use crate::text;
use crate::text::{concat3, concat5, decimal};
use vstd::prelude::*;

verus! {

/// Where the navigation stands.
pub struct NavState {
    pub ip: Seq<char>,
    pub suffixes: Seq<Seq<char>>,
    pub mfa_sent: bool,
    pub search_sent: bool,
    pub asset_id_sent: bool,
    pub echo_off_sent: bool,
}

/// What a screen calls for.
pub enum NavDecision {
    ReadMore,
    SendMfa,
    Search,
    Select(Seq<char>),
    NextPage,
    DisableEcho,
    Arrived,
    Fail(Seq<char>),
}

impl NavState {
    pub open spec fn init(ip: Seq<char>, suffixes: Seq<Seq<char>>) -> NavState {
        NavState {
            ip,
            suffixes,
            mfa_sent: false,
            search_sent: false,
            asset_id_sent: false,
            echo_off_sent: false,
        }
    }

    /// Whether the text on the screen is read without its escape sequences. Once everything
    /// was sent, only the prompt at its end counts.
    pub open spec fn reads_menu(self) -> bool {
        !self.echo_off_sent && !(self.mfa_sent && self.search_sent && self.asset_id_sent)
    }

    /// What the search result on a screen calls for; `ReadMore` if it is not complete.
    pub open spec fn on_results(self, s: Seq<char>) -> NavDecision {
        match assets::exact_asset_id(s, self.ip) {
            Err(e) => NavDecision::Fail(e),
            Ok(Some(id)) => NavDecision::Select(id),
            Ok(None) => if assets::at_page(s) {
                match assets::page_status(s) {
                    Some((current, total)) => if current < total {
                        NavDecision::NextPage
                    } else {
                        NavDecision::Fail(
                            "jumpserver asset search for "@ + self.ip
                                + " did not find an exact IP match after "@ + text::dec(total)
                                + " page(s)"@,
                        )
                    },
                    None => NavDecision::Fail(
                        "jumpserver asset search for "@ + self.ip
                            + " showed a paginated table but page status could not be parsed"@,
                    ),
                }
            } else if assets::at_menu(s) && assets::asset_rows(s).len() > 0 {
                NavDecision::Fail(
                    "jumpserver asset search for "@ + self.ip
                        + " returned candidates but no exact IP match"@,
                )
            } else {
                NavDecision::ReadMore
            },
        }
    }

    /// What the text on the screen calls for. At the prompt of the asset the echo is switched
    /// off; at the next one the navigation is done.
    pub open spec fn decide(self, s: Seq<char>) -> NavDecision {
        if self.echo_off_sent {
            if output::at_prompt(s, self.suffixes) {
                NavDecision::Arrived
            } else {
                NavDecision::ReadMore
            }
        } else if !self.mfa_sent && assets::at_mfa(s) {
            NavDecision::SendMfa
        } else if !self.search_sent && assets::at_menu(s) {
            NavDecision::Search
        } else if self.search_sent && !self.asset_id_sent && !(self.on_results(s) is ReadMore) {
            self.on_results(s)
        } else if self.search_sent && output::at_prompt(s, self.suffixes) {
            NavDecision::DisableEcho
        } else {
            NavDecision::ReadMore
        }
    }

    /// The state once the decision is carried out.
    pub open spec fn after(self, d: NavDecision) -> NavState {
        match d {
            NavDecision::SendMfa => NavState { mfa_sent: true, ..self },
            NavDecision::Search => NavState { search_sent: true, ..self },
            NavDecision::Select(_) => NavState { asset_id_sent: true, ..self },
            NavDecision::DisableEcho => NavState { echo_off_sent: true, ..self },
            _ => self,
        }
    }
}

/// What to do next. Each action but `ReadMore` and `Fail` is carried out on an empty
/// screen: the pending bytes are forgotten.
pub enum NavAction {
    /// Wait for more output.
    ReadMore,
    /// Type a code for the second factor.
    SendMfa,
    /// Type this line.
    WriteLine(String),
    /// The remote shell waits at its prompt and echoes nothing.
    Arrived,
    Fail(String),
}

/// The navigation from a bastion's menu to the shell of one asset.
pub struct Navigator {
    ip: String,
    prompt_suffixes: Vec<String>,
    mfa_sent: bool,
    search_sent: bool,
    asset_id_sent: bool,
    echo_off_sent: bool,
}

impl View for Navigator {
    type V = NavState;

    closed spec fn view(&self) -> NavState {
        NavState {
            ip: self.ip@,
            suffixes: text::texts(self.prompt_suffixes@),
            mfa_sent: self.mfa_sent,
            search_sent: self.search_sent,
            asset_id_sent: self.asset_id_sent,
            echo_off_sent: self.echo_off_sent,
        }
    }
}

/// An action carries out a decision of a navigation to `ip`.
pub open spec fn carries_out(r: NavAction, d: NavDecision, ip: Seq<char>) -> bool {
    match d {
        NavDecision::ReadMore => r is ReadMore,
        NavDecision::SendMfa => r is SendMfa,
        NavDecision::Search => r matches NavAction::WriteLine(line) && line@ == ip,
        NavDecision::Select(id) => r matches NavAction::WriteLine(line) && line@ == id,
        NavDecision::NextPage => r matches NavAction::WriteLine(line) && line@.len() == 0,
        NavDecision::DisableEcho => r matches NavAction::WriteLine(line) && line@
            == "stty -echo"@,
        NavDecision::Arrived => r is Arrived,
        NavDecision::Fail(e) => r matches NavAction::Fail(x) && x@ == e,
    }
}

impl Navigator {
    pub fn new(ip: String, prompt_suffixes: Vec<String>) -> (r: Self)
        ensures
            r@ == NavState::init(ip@, text::texts(prompt_suffixes@)),
    {
        Navigator {
            ip,
            prompt_suffixes,
            mfa_sent: false,
            search_sent: false,
            asset_id_sent: false,
            echo_off_sent: false,
        }
    }

    /// The action for the search result on a screen, if it is complete.
    fn on_results(&self, s: &str) -> (r: NavAction)
        requires
            output::ascii_escapes(s@),
        ensures
            carries_out(r, self@.on_results(s@), self@.ip),
    {
        match select_exact_asset_id(s, self.ip.as_str()) {
            Err(e) => NavAction::Fail(e),
            Ok(Some(id)) => NavAction::WriteLine(id),
            Ok(None) => {
                if contains_page_prompt(s) {
                    match parse_page_status(s) {
                        Some(status) => if status.current < status.total {
                            let line = String::new();
                            assert(line@.len() == 0);
                            NavAction::WriteLine(line)
                        } else {
                            let total = decimal(status.total as u64);
                            NavAction::Fail(
                                concat5(
                                    "jumpserver asset search for ",
                                    self.ip.as_str(),
                                    " did not find an exact IP match after ",
                                    total.as_str(),
                                    " page(s)",
                                ),
                            )
                        },
                        None => NavAction::Fail(
                            concat3(
                                "jumpserver asset search for ",
                                self.ip.as_str(),
                                " showed a paginated table but page status could not be parsed",
                            ),
                        ),
                    }
                } else {
                    let rows = parse_asset_rows(s);
                    assert(assets::row_views(rows@).len() == rows@.len());
                    if contains_menu_prompt(s) && rows.len() > 0 {
                        NavAction::Fail(
                            concat3(
                                "jumpserver asset search for ",
                                self.ip.as_str(),
                                " returned candidates but no exact IP match",
                            ),
                        )
                    } else {
                        NavAction::ReadMore
                    }
                }
            },
        }
    }

    /// Decide on the text of the screen.
    pub fn on_text(&mut self, s: &str) -> (r: NavAction)
        requires
            old(self)@.reads_menu() ==> output::ascii_escapes(s@),
        ensures
            carries_out(r, old(self)@.decide(s@), old(self)@.ip),
            final(self)@ == old(self)@.after(old(self)@.decide(s@)),
    {
        if self.echo_off_sent {
            return if ends_at_prompt(s, self.prompt_suffixes.as_slice()) {
                NavAction::Arrived
            } else {
                NavAction::ReadMore
            };
        }
        if !self.mfa_sent && contains_mfa_prompt(s) {
            self.mfa_sent = true;
            return NavAction::SendMfa;
        }
        if !self.search_sent && contains_menu_prompt(s) {
            self.search_sent = true;
            return NavAction::WriteLine(self.ip.clone());
        }
        if self.search_sent && !self.asset_id_sent {
            let action = self.on_results(s);
            match action {
                NavAction::ReadMore => {},
                NavAction::WriteLine(line) => {
                    if self.selects(s) {
                        self.asset_id_sent = true;
                    }
                    return NavAction::WriteLine(line);
                },
                _ => {
                    return action;
                },
            }
        }
        if self.search_sent && ends_at_prompt(s, self.prompt_suffixes.as_slice()) {
            self.echo_off_sent = true;
            return NavAction::WriteLine("stty -echo".to_owned());
        }
        NavAction::ReadMore
    }

    fn selects(&self, s: &str) -> (r: bool)
        requires
            output::ascii_escapes(s@),
        ensures
            r == (self@.on_results(s@) is Select),
    {
        match select_exact_asset_id(s, self.ip.as_str()) {
            Ok(Some(_)) => true,
            _ => false,
        }
    }

    /// Take a chunk of output into the shell's pending bytes and decide on their text.
    /// There is no decision on a menu where an escape is followed by a character outside
    /// ASCII.
    pub fn on_chunk(&mut self, shell: &mut PtyShell, chunk: &[u8]) -> (r: Option<NavAction>)
        ensures
            ({
                let pending = old(shell)@.pending + chunk@;
                let s = output::lossy_text(pending);
                let d = old(self)@.decide(s);
                match r {
                    None => {
                        &&& old(self)@.reads_menu() && !output::ascii_escapes(s)
                        &&& final(self)@ == old(self)@
                        &&& final(shell)@ == old(shell)@.with(pending)
                    },
                    Some(action) => {
                        &&& old(self)@.reads_menu() ==> output::ascii_escapes(s)
                        &&& carries_out(action, d, old(self)@.ip)
                        &&& final(self)@ == old(self)@.after(d)
                        &&& final(shell)@ == if d is ReadMore || d is Fail {
                            old(shell)@.with(pending)
                        } else {
                            old(shell)@.with(Seq::empty())
                        }
                    },
                }
            }),
    {
        shell.extend_pending(chunk);
        let s = shell.pending_text();
        let reads_menu = !self.echo_off_sent && !(self.mfa_sent && self.search_sent
            && self.asset_id_sent);
        if reads_menu && !has_ascii_escapes(s.as_str()) {
            return None;
        }
        let action = self.on_text(s.as_str());
        match &action {
            NavAction::ReadMore => {},
            NavAction::Fail(_) => {},
            _ => {
                shell.clear_pending();
            },
        }
        Some(action)
    }
}

/// Where a navigation stands behind a number of screens, and what it decided on each.
pub open spec fn nav_run(start: NavState, screens: Seq<Seq<char>>) -> (NavState, Seq<NavDecision>)
    decreases screens.len(),
{
    if screens.len() == 0 {
        (start, Seq::empty())
    } else {
        let (state, decisions) = nav_run(start, screens.drop_last());
        let d = state.decide(screens.last());
        (state.after(d), decisions.push(d))
    }
}

/// Whatever the bastion shows, a navigation types the code of the second factor, the
/// search, an asset's id and the command that switches the echo off at most once each.
pub proof fn law_nothing_is_sent_twice(
    ip: Seq<char>,
    suffixes: Seq<Seq<char>>,
    screens: Seq<Seq<char>>,
)
    ensures
        ({
            let (state, ds) = nav_run(NavState::init(ip, suffixes), screens);
            &&& forall|i: int, j: int|
                0 <= i < j < ds.len() ==> {
                    &&& !((#[trigger] ds[i]) is SendMfa && (#[trigger] ds[j]) is SendMfa)
                    &&& !(ds[i] is Search && ds[j] is Search)
                    &&& !(ds[i] is Select && ds[j] is Select)
                    &&& !(ds[i] is DisableEcho && ds[j] is DisableEcho)
                }
            &&& forall|i: int|
                0 <= i < ds.len() ==> {
                    &&& (#[trigger] ds[i]) is SendMfa ==> state.mfa_sent
                    &&& ds[i] is Search ==> state.search_sent
                    &&& ds[i] is Select ==> state.asset_id_sent
                    &&& ds[i] is DisableEcho ==> state.echo_off_sent
                }
        }),
    decreases screens.len(),
{
    if screens.len() > 0 {
        law_nothing_is_sent_twice(ip, suffixes, screens.drop_last());
    }
}

/// The search was sent before decision `n`.
pub open spec fn searched_before(ds: Seq<NavDecision>, n: int) -> bool {
    exists|i: int| 0 <= i < n && (#[trigger] ds[i]) is Search
}

/// The echo was switched off before decision `n`.
pub open spec fn silenced_before(ds: Seq<NavDecision>, n: int) -> bool {
    exists|i: int| 0 <= i < n && (#[trigger] ds[i]) is DisableEcho
}

/// A navigation selects an asset, turns a page and switches the echo off only once it has
/// searched, and arrives only once it has switched the echo off.
pub proof fn law_arrival_is_behind_search(
    ip: Seq<char>,
    suffixes: Seq<Seq<char>>,
    screens: Seq<Seq<char>>,
)
    ensures
        ({
            let (state, ds) = nav_run(NavState::init(ip, suffixes), screens);
            &&& forall|j: int|
                0 <= j < ds.len() ==> {
                    &&& (#[trigger] ds[j]) is Select || ds[j] is NextPage || ds[j] is DisableEcho
                        ==> searched_before(ds, j)
                    &&& ds[j] is Arrived ==> silenced_before(ds, j)
                }
            &&& state.search_sent ==> searched_before(ds, ds.len() as int)
            &&& state.echo_off_sent ==> silenced_before(ds, ds.len() as int)
        }),
    decreases screens.len(),
{
    let start = NavState::init(ip, suffixes);
    if screens.len() > 0 {
        law_arrival_is_behind_search(ip, suffixes, screens.drop_last());
        let (mid, before) = nav_run(start, screens.drop_last());
        let (state, ds) = nav_run(start, screens);
        let n = before.len() as int;
        assert forall|j: int| searched_before(before, j) && 0 <= j <= n implies searched_before(
            ds,
            j,
        ) by {
            let i = choose|i: int| 0 <= i < j && (#[trigger] before[i]) is Search;
            assert(ds[i] == before[i]);
        }
        assert forall|j: int| silenced_before(before, j) && 0 <= j <= n implies silenced_before(
            ds,
            j,
        ) by {
            let i = choose|i: int| 0 <= i < j && (#[trigger] before[i]) is DisableEcho;
            assert(ds[i] == before[i]);
        }
        assert forall|j: int| 0 <= j < ds.len() implies {
            &&& (#[trigger] ds[j]) is Select || ds[j] is NextPage || ds[j] is DisableEcho
                ==> searched_before(ds, j)
            &&& ds[j] is Arrived ==> silenced_before(ds, j)
        } by {
            if j < n {
                assert(ds[j] == before[j]);
            }
        }
        if state.search_sent {
            if mid.search_sent {
                assert(searched_before(ds, n));
            } else {
                assert(ds[n] is Search);
            }
        }
        if state.echo_off_sent {
            if mid.echo_off_sent {
                assert(silenced_before(ds, n));
            } else {
                assert(ds[n] is DisableEcho);
            }
        }
    }
}

/// The asset that a navigation selects is the one row of the table with exactly the searched
/// address.
pub proof fn law_selection_is_exact(state: NavState, s: Seq<char>)
    ensures
        state.decide(s) matches NavDecision::Select(id) ==> state.search_sent && assets::ids_for(
            assets::asset_rows(s),
            state.ip,
        ) == seq![id],
{
    let ids = assets::ids_for(assets::asset_rows(s), state.ip);
    if ids.len() == 1 {
        assert(ids == seq![ids[0]]);
    }
}

/// The screen shows the words, escape sequences aside.
pub open spec fn shows(s: Seq<char>, words: Seq<char>) -> bool {
    exists|i: int| search::occurs_at(output::ansi_free(s), words, i)
}

/// A navigation answers each screen with what it asks for: a prompt for the second factor with
/// a code, the menu with the address that is searched, a table with the number of the one line
/// that shows this address, a table without it with a blank line for the next page, and the
/// prompt of the asset with the command that switches its echo off. At the next prompt it has
/// arrived.
pub proof fn law_navigation_answers_the_screen(state: NavState, s: Seq<char>, r: NavAction)
    requires
        carries_out(r, state.decide(s), state.ip),
    ensures
        ({
            let rows = assets::asset_rows(s);
            let waits = output::at_prompt(s, state.suffixes);
            let wants_code = !state.mfa_sent && shows(s, seq!['M', 'F', 'A']);
            let wants_search = !state.search_sent && shows(s, seq!['O', 'p', 't']);
            let looks = state.search_sent && !state.asset_id_sent;
            if state.echo_off_sent {
                if waits {
                    r is Arrived
                } else {
                    r is ReadMore
                }
            } else if wants_code {
                r is SendMfa
            } else if wants_search {
                r matches NavAction::WriteLine(line) && line@ == state.ip
            } else {
                &&& looks ==> match assets::exact_asset_id(s, state.ip) {
                    Ok(Some(id)) => r matches NavAction::WriteLine(line) && line@ == id,
                    Err(_) => r is Fail,
                    Ok(None) => assets::at_page(s) ==> match assets::page_status(s) {
                        Some((current, total)) => if current < total {
                            r matches NavAction::WriteLine(line) && line@.len() == 0
                        } else {
                            r is Fail
                        },
                        None => r is Fail,
                    },
                }
                &&& state.search_sent && state.asset_id_sent ==> if waits {
                    r matches NavAction::WriteLine(line) && line@ == "stty -echo"@
                } else {
                    r is ReadMore
                }
                &&& !state.search_sent ==> r is ReadMore
            }
        }),
{
    reveal_strlit("MFA");
    reveal_strlit("Opt");
    assert("MFA"@ =~= seq!['M', 'F', 'A']);
    assert("Opt"@ =~= seq!['O', 'p', 't']);
    lemma_shows(s, "MFA"@);
    lemma_shows(s, "Opt"@);
}

proof fn lemma_shows(s: Seq<char>, words: Seq<char>)
    ensures
        shows(s, words) == text::holds(output::ansi_free(s), words),
{
    let t = output::ansi_free(s);
    search::lemma_find_from(t, words, 0);
    match search::find(t, words) {
        Some(k) => {
            assert(search::occurs_at(t, words, k));
        },
        None => {
            assert forall|i: int| !search::occurs_at(t, words, i) by {
                if i >= 0 {
                    assert(!search::occurs_at(t, words, i));
                }
            }
        },
    }
}

/// What was done is remembered, and only that: each step of the way is taken once.
pub proof fn law_navigation_remembers_its_steps(state: NavState, s: Seq<char>)
    ensures
        ({
            let d = state.decide(s);
            let next = state.after(d);
            &&& next.mfa_sent == (state.mfa_sent || d is SendMfa)
            &&& next.search_sent == (state.search_sent || d is Search)
            &&& next.asset_id_sent == (state.asset_id_sent || d is Select)
            &&& next.echo_off_sent == (state.echo_off_sent || d is DisableEcho)
            &&& next.ip == state.ip
            &&& next.suffixes == state.suffixes
        }),
{
}

/// A navigation begins with nothing sent: its first answers are those to the menus.
pub proof fn law_navigation_begins_afresh(ip: Seq<char>, suffixes: Seq<Seq<char>>, s: Seq<char>)
    ensures
        ({
            let start = NavState::init(ip, suffixes);
            &&& start.ip == ip
            &&& start.suffixes == suffixes
            &&& shows(s, seq!['M', 'F', 'A']) ==> start.decide(s) is SendMfa
            &&& !shows(s, seq!['M', 'F', 'A']) && shows(s, seq!['O', 'p', 't']) ==> start.decide(s)
                is Search
            &&& !shows(s, seq!['M', 'F', 'A']) && !shows(s, seq!['O', 'p', 't']) ==> start.decide(
                s,
            ) is ReadMore
            &&& !start.asset_id_sent && !start.echo_off_sent
        }),
{
    reveal_strlit("MFA");
    reveal_strlit("Opt");
    assert("MFA"@ =~= seq!['M', 'F', 'A']);
    assert("Opt"@ =~= seq!['O', 'p', 't']);
    lemma_shows(s, "MFA"@);
    lemma_shows(s, "Opt"@);
}

} // verus!

use vstd::prelude::*;
use crate::console::event_bus::Event;
use crate::strings::{
    decimal, has_prefix, parse_u64, parsed_u64, push_char, push_decimal, push_str, same_text,
    strip_all, strip_all_prefix, strip_prefix, trim, trimmed,
};

verus! {

/// A tab: its id and title.
#[derive(Debug, Clone)]
pub struct Tab {
    pub id: u64,
    pub title: String,
}

/// The open tabs, the one in front, and the id the next tab gets.
#[derive(Debug)]
pub struct TabManager {
    next_id: u64,
    tabs: Vec<Tab>,
    active: Option<u64>,
}

/// A tab as plain values.
pub open spec fn tab_view(t: Tab) -> (u64, Seq<char>) {
    (t.id, t.title@)
}

/// The title of the first tab with id `id`.
pub open spec fn title_in(ts: Seq<(u64, Seq<char>)>, id: u64) -> Option<Seq<char>>
    decreases ts.len(),
{
    if ts.len() == 0 {
        None
    } else if ts[0].0 == id {
        Some(ts[0].1)
    } else {
        title_in(ts.drop_first(), id)
    }
}

/// The title of the tab in front, or `none`.
pub open spec fn front_title(ts: Seq<(u64, Seq<char>)>, active: Option<u64>) -> Seq<char> {
    match active {
        Some(id) => match title_in(ts, id) {
            Some(t) => t,
            None => "none"@,
        },
        None => "none"@,
    }
}

/// `id:title` for each tab, separated by commas.
pub open spec fn tab_list(ts: Seq<(u64, Seq<char>)>) -> Seq<char>
    decreases ts.len(),
{
    if ts.len() == 0 {
        Seq::empty()
    } else {
        let entry = decimal(ts.last().0 as nat) + seq![':'] + ts.last().1;
        if ts.len() == 1 {
            entry
        } else {
            tab_list(ts.drop_last()) + seq![','] + entry
        }
    }
}

/// A tab manager's state and its reply to an event.
pub struct TabOutcome {
    pub reply: Seq<char>,
    pub tabs: Seq<(u64, Seq<char>)>,
    pub active: Option<u64>,
    pub next: u64,
}

/// Some tab has id `id`.
pub open spec fn has_id(ts: Seq<(u64, Seq<char>)>, id: u64) -> bool {
    exists|k: int| 0 <= k < ts.len() && (#[trigger] ts[k]).0 == id
}

/// How the manager answers `ev`: a tick reports the front tab; `tab:new <title>`
/// opens a tab; `tab:list` lists the tabs; `tab:focus <id>` brings a tab to the
/// front; other input is echoed.
pub open spec fn tab_event(ts: Seq<(u64, Seq<char>)>, active: Option<u64>, next: u64, ev: Event) -> TabOutcome {
    let same = TabOutcome { reply: Seq::empty(), tabs: ts, active, next };
    match ev {
        Event::Tick => TabOutcome { reply: "tick active_tab="@ + front_title(ts, active), ..same },
        Event::Shutdown => TabOutcome { reply: "shutdown"@, ..same },
        Event::Input(c) => {
            let c = c@;
            if has_prefix(c, "tab:new "@) {
                let title = strip_all(c, "tab:new "@);
                TabOutcome {
                    reply: "tab created id="@ + decimal(next as nat) + " title="@ + title,
                    tabs: ts.push((next, title)),
                    active: Some(next),
                    next: (next + 1) as u64,
                }
            } else if c == "tab:list"@ {
                TabOutcome { reply: "tabs "@ + tab_list(ts), ..same }
            } else if has_prefix(c, "tab:focus "@) {
                match parsed_u64(trimmed(c.skip("tab:focus "@.len() as int))) {
                    Some(id) => if has_id(ts, id) {
                        TabOutcome {
                            reply: "tab focused id="@ + decimal(id as nat),
                            active: Some(id),
                            ..same
                        }
                    } else {
                        TabOutcome { reply: "tab not found id="@ + decimal(id as nat), ..same }
                    },
                    None => TabOutcome { reply: "tab focus invalid"@, ..same },
                }
            } else {
                TabOutcome { reply: "input "@ + c, ..same }
            }
        },
    }
}

impl TabManager {
    pub closed spec fn tabs_view(&self) -> Seq<(u64, Seq<char>)> {
        self.tabs@.map_values(|t: Tab| tab_view(t))
    }

    pub closed spec fn active_spec(&self) -> Option<u64> {
        self.active
    }

    pub closed spec fn next_spec(&self) -> u64 {
        self.next_id
    }

    /// A manager holding one tab, `welcome`, with id 1, in front.
    pub fn new() -> (m: Self)
        ensures
            m.tabs_view() == seq![(1u64, "welcome"@)],
            m.active_spec() == Some(1u64),
            m.next_spec() == 2,
    {
        let mut manager = Self { next_id: 1, tabs: Vec::new(), active: None };
        let title = "welcome".to_owned();
        manager.create_tab(title);
        assert(manager.tabs_view() =~= seq![(1u64, "welcome"@)]);
        manager
    }

    /// Opens a tab titled `title` in front and returns its id.
    pub fn create_tab(&mut self, title: String) -> (id: u64)
        requires
            old(self).next_spec() < u64::MAX,
        ensures
            id == old(self).next_spec(),
            final(self).next_spec() == id + 1,
            final(self).tabs_view() == old(self).tabs_view().push((id, title@)),
            final(self).active_spec() == Some(id),
    {
        let id = self.next_id;
        self.next_id = self.next_id + 1;
        let ghost before = self.tabs@;
        self.tabs.push(Tab { id, title });
        assert(self.tabs@.map_values(|t: Tab| tab_view(t)) =~= before.map_values(
            |t: Tab| tab_view(t),
        ).push((id, title@)));
        self.active = Some(id);
        id
    }

    /// The title of the first tab with id `id`.
    pub fn title_for(&self, id: u64) -> (r: Option<String>)
        ensures
            match r {
                Some(t) => title_in(self.tabs_view(), id) == Some(t@),
                None => title_in(self.tabs_view(), id) is None,
            },
    {
        let ghost ts = self.tabs_view();
        let mut i: usize = 0;
        assert(ts.skip(0) =~= ts);
        while i < self.tabs.len()
            invariant
                i <= self.tabs@.len(),
                ts == self.tabs_view(),
                ts.len() == self.tabs@.len(),
                title_in(ts.skip(i as int), id) == title_in(ts, id),
            decreases self.tabs@.len() - i,
        {
            assert(ts[i as int] == tab_view(self.tabs@[i as int]));
            assert(ts.skip(i as int).drop_first() =~= ts.skip(i + 1));
            if self.tabs[i].id == id {
                return Some(self.tabs[i].title.clone());
            }
            i = i + 1;
        }
        None
    }

    /// The title of the tab in front, or `none`.
    pub fn active_title(&self) -> (s: String)
        ensures
            s@ == front_title(self.tabs_view(), self.active_spec()),
    {
        match self.active {
            Some(id) => match self.title_for(id) {
                Some(t) => t,
                None => "none".to_owned(),
            },
            None => "none".to_owned(),
        }
    }

    pub fn active_id(&self) -> (r: Option<u64>)
        ensures
            r == self.active_spec(),
    {
        self.active
    }

    pub fn has_tab(&self, id: u64) -> (r: bool)
        ensures
            r == (exists|k: int| 0 <= k < self.tabs_view().len() && (#[trigger] self.tabs_view()[k]).0
                == id),
    {
        let ghost ts = self.tabs_view();
        let mut i: usize = 0;
        while i < self.tabs.len()
            invariant
                i <= self.tabs@.len(),
                ts == self.tabs_view(),
                ts.len() == self.tabs@.len(),
                forall|k: int| 0 <= k < i ==> (#[trigger] ts[k]).0 != id,
            decreases self.tabs@.len() - i,
        {
            assert(ts[i as int] == tab_view(self.tabs@[i as int]));
            if self.tabs[i].id == id {
                return true;
            }
            i = i + 1;
        }
        false
    }

    fn list_text(&self, out: &mut String)
        ensures
            final(out)@ == old(out)@ + tab_list(self.tabs_view()),
    {
        let ghost ts = self.tabs_view();
        let ghost start = out@;
        let mut i: usize = 0;
        assert(ts.take(0) =~= Seq::<(u64, Seq<char>)>::empty());
        while i < self.tabs.len()
            invariant
                i <= self.tabs@.len(),
                ts == self.tabs_view(),
                ts.len() == self.tabs@.len(),
                out@ == start + tab_list(ts.take(i as int)),
            decreases self.tabs@.len() - i,
        {
            assert(ts[i as int] == tab_view(self.tabs@[i as int]));
            let ghost pre = ts.take(i as int);
            let ghost next = ts.take(i + 1);
            assert(next.drop_last() =~= pre);
            if i > 0 {
                push_char(out, ',');
            }
            push_decimal(out, self.tabs[i].id);
            push_char(out, ':');
            push_str(out, self.tabs[i].title.as_str());
            assert(out@ =~= start + tab_list(next));
            i = i + 1;
        }
        assert(ts.take(ts.len() as int) =~= ts);
    }

    /// Answers an event, opening or focusing tabs as it asks.
    pub fn handle_event(&mut self, event: &Event) -> (r: Option<String>)
        requires
            old(self).next_spec() < u64::MAX,
        ensures
            r matches Some(text) && text@ == tab_event(
                old(self).tabs_view(),
                old(self).active_spec(),
                old(self).next_spec(),
                *event,
            ).reply,
            final(self).tabs_view() == tab_event(
                old(self).tabs_view(),
                old(self).active_spec(),
                old(self).next_spec(),
                *event,
            ).tabs,
            final(self).active_spec() == tab_event(
                old(self).tabs_view(),
                old(self).active_spec(),
                old(self).next_spec(),
                *event,
            ).active,
            final(self).next_spec() == tab_event(
                old(self).tabs_view(),
                old(self).active_spec(),
                old(self).next_spec(),
                *event,
            ).next,
    {
        match event {
            Event::Tick => {
                let mut out = "tick active_tab=".to_owned();
                let title = self.active_title();
                push_str(&mut out, title.as_str());
                Some(out)
            },
            Event::Input(command) => {
                if let Some(_) = strip_prefix(command.as_str(), "tab:new ") {
                    let title = strip_all_prefix(command.as_str(), "tab:new ");
                    let mut out = "tab created id=".to_owned();
                    let id = self.create_tab(title.clone());
                    push_decimal(&mut out, id);
                    push_str(&mut out, " title=");
                    push_str(&mut out, title.as_str());
                    Some(out)
                } else if same_text(command, "tab:list") {
                    let mut out = "tabs ".to_owned();
                    self.list_text(&mut out);
                    Some(out)
                } else if let Some(rest) = strip_prefix(command.as_str(), "tab:focus ") {
                    let arg = trim(rest.as_str());
                    match parse_u64(arg.as_str()) {
                        Some(id) => {
                            if self.has_tab(id) {
                                self.active = Some(id);
                                let mut out = "tab focused id=".to_owned();
                                push_decimal(&mut out, id);
                                Some(out)
                            } else {
                                let mut out = "tab not found id=".to_owned();
                                push_decimal(&mut out, id);
                                Some(out)
                            }
                        },
                        None => Some("tab focus invalid".to_owned()),
                    }
                } else {
                    let mut out = "input ".to_owned();
                    push_str(&mut out, command.as_str());
                    Some(out)
                }
            },
            Event::Shutdown => Some("shutdown".to_owned()),
        }
    }
}

} // verus!

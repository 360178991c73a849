//! Detection of `# help` requests typed into terminal panes.
use vstd::prelude::*;

use std::collections::HashMap;

use crate::commands::{pane_contents_to_text, screen_text, PaneContents, PaneId};
use crate::protocol::HelpEventPayload;
use crate::text::{
    find, find_chars, lemma_find_from_matches, line_bounds, lines, owned, str_chars,
    string_from_chars, trim, trim_bounds,
};

verus! {

broadcast use {vstd::string::group_string_axioms, vstd::std_specs::hash::group_hash_axioms};

/// The marker that asks for help: `# help`.
pub open spec fn help_marker() -> Seq<char> {
    seq!['#', ' ', 'h', 'e', 'l', 'p']
}

/// The prompt sent when the marker is followed by nothing.
pub open spec fn default_prompt() -> Seq<char> {
    "Help me with this terminal session"@
}

/// The view of an optional help request.
pub open spec fn help_opt_view(h: Option<HelpEventPayload>) -> Option<(Seq<char>, Option<Seq<char>>)> {
    match h {
        Some(p) => Some(p@),
        None => None,
    }
}

/// The help request on a line: present when the line holds `# help`; its
/// prompt is what follows the first marker, trimmed (or the default prompt
/// where that is empty), and its context what precedes it, trimmed (absent
/// where that is empty).
pub open spec fn help_from_line(line: Seq<char>) -> Option<(Seq<char>, Option<Seq<char>>)> {
    match find(line, help_marker()) {
        None => None,
        Some(i) => {
            let prompt = trim(line.skip((i + 6) as int));
            let before = trim(line.take(i as int));
            Some(
                (
                    if prompt.len() == 0 {
                        default_prompt()
                    } else {
                        prompt
                    },
                    if before.len() == 0 {
                        None
                    } else {
                        Some(before)
                    },
                ),
            )
        },
    }
}

/// How many non-blank lines, counted up from the bottom of the screen (the
/// lines nearest the cursor), are searched for a help request.
pub const HELP_SCAN_LINES: usize = 3;

/// The help request on the last `budget` non-blank lines of `ls`: the lowest
/// of them that holds one, each line trimmed.
pub open spec fn trigger_in(ls: Seq<Seq<char>>, budget: nat) -> Option<
    (Seq<char>, Option<Seq<char>>),
>
    decreases ls.len(),
{
    if ls.len() == 0 || budget == 0 {
        None
    } else if trim(ls.last()).len() == 0 {
        trigger_in(ls.drop_last(), budget)
    } else {
        match help_from_line(trim(ls.last())) {
            Some(h) => Some(h),
            None => trigger_in(ls.drop_last(), (budget - 1) as nat),
        }
    }
}

/// The help request in a screen's text: the lowest of its last
/// `HELP_SCAN_LINES` non-blank lines that holds one.
pub open spec fn help_trigger(content: Seq<char>) -> Option<(Seq<char>, Option<Seq<char>>)> {
    trigger_in(lines(content), HELP_SCAN_LINES as nat)
}

/// Extracts the help request from a line if it contains `# help`.
pub fn extract_help_from_line(line: &str) -> (r: Option<HelpEventPayload>)
    ensures
        help_opt_view(r) == help_from_line(line@),
{
    let cs = str_chars(line);
    let marker = str_chars("# help");
    proof {
        reveal_strlit("# help");
        assert(marker@ =~= help_marker());
    }
    match find_chars(cs.as_slice(), marker.as_slice()) {
        None => None,
        Some(i) => {
            proof {
                lemma_find_from_matches(cs@, marker@, 0);
            }
            assert(i + 6 <= cs@.len());
            let n = cs.len();
            let (pa, pb) = trim_bounds(cs.as_slice(), i + 6, n);
            let (ba, bb) = trim_bounds(cs.as_slice(), 0, i);
            assert(cs@.subrange(i + 6, cs@.len() as int) =~= line@.skip(i + 6));
            assert(cs@.subrange(0, i as int) =~= line@.take(i as int));
            let prompt = if pa == pb {
                owned("Help me with this terminal session")
            } else {
                string_from_chars(cs.as_slice(), pa, pb)
            };
            let context = if ba == bb {
                None
            } else {
                Some(string_from_chars(cs.as_slice(), ba, bb))
            };
            Some(HelpEventPayload { prompt, context })
        },
    }
}

/// Looks for a help request in the last `HELP_SCAN_LINES` non-blank lines
/// of `content`, from the bottom up.
pub fn find_help_trigger(content: &str) -> (r: Option<HelpEventPayload>)
    ensures
        help_opt_view(r) == help_trigger(content@),
{
    let cs = str_chars(content);
    let bounds = line_bounds(cs.as_slice());
    let ghost ls = lines(cs@);
    let mut k = bounds.len();
    let mut budget: usize = HELP_SCAN_LINES;
    assert(ls.take(k as int) =~= ls);
    while k > 0 && budget > 0
        invariant
            k <= bounds@.len(),
            budget <= HELP_SCAN_LINES,
            bounds@.len() == ls.len(),
            ls == lines(content@),
            cs@ == content@,
            forall|m: int|
                #![trigger bounds@[m]]
                0 <= m < bounds@.len() ==> {
                    &&& bounds@[m].0 <= bounds@[m].1 <= cs@.len()
                    &&& cs@.subrange(bounds@[m].0 as int, bounds@[m].1 as int) == ls[m]
                },
            help_trigger(content@) == trigger_in(ls.take(k as int), budget as nat),
        decreases k,
    {
        let (lo, hi) = bounds[k - 1];
        assert(cs@.subrange(lo as int, hi as int) == ls[k - 1]);
        let (a, b) = trim_bounds(cs.as_slice(), lo, hi);
        assert(ls.take(k as int).last() == ls[k - 1]);
        assert(ls.take(k as int).drop_last() =~= ls.take(k - 1));
        if a < b {
            let line = string_from_chars(cs.as_slice(), a, b);
            let found = extract_help_from_line(line.as_str());
            if found.is_some() {
                return found;
            }
            budget = budget - 1;
        }
        k = k - 1;
    }
    assert(k == 0 ==> ls.take(k as int).len() == 0);
    None
}

/// The key under which a pane's last help request is remembered: the
/// screen text it was found in, so that a request is sent again only once
/// the screen shows something else.
pub open spec fn trigger_key(text: Seq<char>) -> Seq<char> {
    text
}

/// One pane in a scan: the remembered keys move on, and a help request may
/// come out. Plugin panes are passed over; a terminal pane's request comes
/// out unless the key remembered for it already equals its current key.
pub open spec fn scan_step(m: Map<u32, Seq<char>>, item: (PaneId, Seq<Seq<char>>)) -> (
    Map<u32, Seq<char>>,
    Option<(PaneId, (Seq<char>, Option<Seq<char>>))>,
) {
    match item.0 {
        PaneId::Plugin(_) => (m, None),
        PaneId::Terminal(id) => {
            let text = screen_text(item.1);
            match help_trigger(text) {
                None => (m, None),
                Some(h) => {
                    let key = trigger_key(text);
                    if m.contains_key(id) && m[id] == key {
                        (m, None)
                    } else {
                        (m.insert(id, key), Some((item.0, h)))
                    }
                },
            }
        },
    }
}

/// A scan over panes in order: the remembered keys afterwards, and the help
/// requests that came out, in order.
pub open spec fn scan(m: Map<u32, Seq<char>>, items: Seq<(PaneId, Seq<Seq<char>>)>) -> (
    Map<u32, Seq<char>>,
    Seq<(PaneId, (Seq<char>, Option<Seq<char>>))>,
)
    decreases items.len(),
{
    if items.len() == 0 {
        (m, seq![])
    } else {
        let (m1, out) = scan(m, items.drop_last());
        let (m2, o) = scan_step(m1, items.last());
        (
            m2,
            match o {
                Some(x) => out.push(x),
                None => out,
            },
        )
    }
}

/// No pane occurs twice.
pub open spec fn distinct_panes(items: Seq<(PaneId, Seq<Seq<char>>)>) -> bool {
    forall|a: int, b: int| 0 <= a < b < items.len() ==> #[trigger] items[a].0 != #[trigger] items[b].0
}

/// Each terminal pane of `items` that shows a help request has its key
/// remembered in `m`.
pub open spec fn remembers(m: Map<u32, Seq<char>>, items: Seq<(PaneId, Seq<Seq<char>>)>) -> bool {
    forall|j: int|
        #![trigger items[j]]
        0 <= j < items.len() ==> match items[j].0 {
            PaneId::Terminal(id) => help_trigger(screen_text(items[j].1)) is Some ==> {
                &&& m.contains_key(id)
                &&& m[id] == trigger_key(screen_text(items[j].1))
            },
            PaneId::Plugin(_) => true,
        }
}

/// After a scan over distinct panes, every help request seen is remembered.
proof fn lemma_scan_remembers(m: Map<u32, Seq<char>>, items: Seq<(PaneId, Seq<Seq<char>>)>)
    requires
        distinct_panes(items),
    ensures
        remembers(scan(m, items).0, items),
    decreases items.len(),
{
    if items.len() > 0 {
        let prev = items.drop_last();
        assert(distinct_panes(prev)) by {
            assert forall|a: int, b: int| 0 <= a < b < prev.len() implies #[trigger] prev[a].0
                != #[trigger] prev[b].0 by {
                assert(prev[a] == items[a] && prev[b] == items[b]);
            }
        }
        lemma_scan_remembers(m, prev);
        let m1 = scan(m, prev).0;
        let m2 = scan(m, items).0;
        let last = items.last();
        assert(m2 == scan_step(m1, last).0);
        assert forall|j: int| #![trigger items[j]] 0 <= j < items.len() implies match items[j].0 {
            PaneId::Terminal(id) => help_trigger(screen_text(items[j].1)) is Some ==> {
                &&& m2.contains_key(id)
                &&& m2[id] == trigger_key(screen_text(items[j].1))
            },
            PaneId::Plugin(_) => true,
        } by {
            if j < items.len() - 1 {
                assert(prev[j] == items[j]);
                assert(items[j].0 != items[items.len() - 1].0);
            }
        }
    }
}

/// Scanning panes that are all remembered finds nothing and changes nothing.
proof fn lemma_remembered_scan_is_quiet(
    m: Map<u32, Seq<char>>,
    items: Seq<(PaneId, Seq<Seq<char>>)>,
)
    requires
        remembers(m, items),
    ensures
        scan(m, items) == (m, Seq::<(PaneId, (Seq<char>, Option<Seq<char>>))>::empty()),
    decreases items.len(),
{
    if items.len() > 0 {
        let prev = items.drop_last();
        assert(remembers(m, prev)) by {
            assert forall|j: int| #![trigger prev[j]] 0 <= j < prev.len() implies match prev[j].0 {
                PaneId::Terminal(id) => help_trigger(screen_text(prev[j].1)) is Some ==> {
                    &&& m.contains_key(id)
                    &&& m[id] == trigger_key(screen_text(prev[j].1))
                },
                PaneId::Plugin(_) => true,
            } by {
                assert(prev[j] == items[j]);
            }
        }
        lemma_remembered_scan_is_quiet(m, prev);
        assert(items[items.len() - 1] == items.last());
    }
}

/// Scanning the same panes twice in a row: the second scan finds no help
/// request, since each request seen is remembered and not sent again.
pub proof fn lemma_rescan_sends_nothing(m: Map<u32, Seq<char>>, items: Seq<(PaneId, Seq<Seq<char>>)>)
    requires
        distinct_panes(items),
    ensures
        scan(scan(m, items).0, items).1.len() == 0,
        scan(scan(m, items).0, items).0 == scan(m, items).0,
{
    lemma_scan_remembers(m, items);
    lemma_remembered_scan_is_quiet(scan(m, items).0, items);
}

/// A terminal pane whose screen holds a help request and differs from the
/// screen its last request was sent on has that request reported.
pub proof fn lemma_new_screen_is_reported(m: Map<u32, Seq<char>>, id: u32, viewport: Seq<Seq<char>>)
    requires
        help_trigger(screen_text(viewport)) is Some,
        !(m.contains_key(id) && m[id] == screen_text(viewport)),
    ensures
        scan(m, seq![(PaneId::Terminal(id), viewport)]).1 == seq![
            (PaneId::Terminal(id), help_trigger(screen_text(viewport))->0),
        ],
        scan(m, seq![(PaneId::Terminal(id), viewport)]).0 == m.insert(id, screen_text(viewport)),
{
    let items = seq![(PaneId::Terminal(id), viewport)];
    assert(items.drop_last() =~= Seq::<(PaneId, Seq<Seq<char>>)>::empty());
    assert(items.last() == (PaneId::Terminal(id), viewport));
    let text = screen_text(viewport);
    let h = help_trigger(text)->0;
    assert(scan(m, items.drop_last()) == (m, Seq::<(PaneId, (Seq<char>, Option<Seq<char>>))>::empty()));
    assert(scan_step(m, items.last()) == (m.insert(id, text), Some((PaneId::Terminal(id), h))));
    assert(Seq::<(PaneId, (Seq<char>, Option<Seq<char>>))>::empty().push((PaneId::Terminal(id), h))
        =~= seq![(PaneId::Terminal(id), h)]);
}

/// The views of panes and their contents.
pub open spec fn panes_view(items: Seq<(PaneId, PaneContents)>) -> Seq<(PaneId, Seq<Seq<char>>)> {
    items.map_values(|p: (PaneId, PaneContents)| (p.0, p.1@))
}

/// The views of the help requests found by a scan.
pub open spec fn triggers_view(out: Seq<(PaneId, HelpEventPayload)>) -> Seq<
    (PaneId, (Seq<char>, Option<Seq<char>>)),
> {
    out.map_values(|p: (PaneId, HelpEventPayload)| (p.0, p.1@))
}

/// Whether a screen report names each pane once.
pub fn report_is_distinct(pane_contents: &Vec<(PaneId, PaneContents)>) -> (r: bool)
    ensures
        r == distinct_panes(panes_view(pane_contents@)),
{
    let ghost items = panes_view(pane_contents@);
    let n = pane_contents.len();
    let mut b: usize = 0;
    while b < n
        invariant
            n == pane_contents@.len(),
            items == panes_view(pane_contents@),
            b <= n,
            forall|x: int, y: int| 0 <= x < y < b ==> #[trigger] items[x].0 != #[trigger] items[y].0,
        decreases n - b,
    {
        let mut a: usize = 0;
        while a < b
            invariant
                n == pane_contents@.len(),
                items == panes_view(pane_contents@),
                a <= b < n,
                forall|x: int| 0 <= x < a ==> #[trigger] items[x].0 != items[b as int].0,
            decreases b - a,
        {
            assert(items[a as int].0 == pane_contents@[a as int].0);
            assert(items[b as int].0 == pane_contents@[b as int].0);
            if pane_contents[a].0 == pane_contents[b].0 {
                return false;
            }
            a = a + 1;
        }
        b = b + 1;
    }
    true
}

/// Remembers, per terminal pane, the screen on which the last help request
/// was sent for it, so that the same request is not sent again.
pub struct ScreenMonitor {
    last_help_line: HashMap<u32, String>,
}

impl View for ScreenMonitor {
    type V = Map<u32, Seq<char>>;

    closed spec fn view(&self) -> Map<u32, Seq<char>> {
        self.last_help_line@.map_values(|s: String| s@)
    }
}

impl ScreenMonitor {
    /// A monitor that remembers nothing yet.
    pub fn new() -> (r: ScreenMonitor)
        ensures
            r@ == Map::<u32, Seq<char>>::empty(),
    {
        let r = ScreenMonitor { last_help_line: HashMap::new() };
        assert(r@ =~= Map::<u32, Seq<char>>::empty());
        r
    }

    /// Scans pane contents (each pane once, as the host reports them) for
    /// `# help` requests and returns, in the order of the panes, those newly
    /// seen.
    pub fn scan_for_help(&mut self, pane_contents: &Vec<(PaneId, PaneContents)>) -> (r: Vec<
        (PaneId, HelpEventPayload),
    >)
        requires
            distinct_panes(panes_view(pane_contents@)),
        ensures
            (final(self)@, triggers_view(r@)) == scan(old(self)@, panes_view(pane_contents@)),
    {
        let ghost items = panes_view(pane_contents@);
        let mut triggers: Vec<(PaneId, HelpEventPayload)> = Vec::new();
        let mut i: usize = 0;
        while i < pane_contents.len()
            invariant
                i <= pane_contents@.len(),
                items == panes_view(pane_contents@),
                (self@, triggers_view(triggers@)) == scan(old(self)@, items.take(i as int)),
            decreases pane_contents@.len() - i,
        {
            let ghost before = self@;
            let ghost out_before = triggers_view(triggers@);
            assert(items.take(i + 1).drop_last() =~= items.take(i as int));
            assert(items.take(i + 1).last() == items[i as int]);
            let (pane_id, contents) = &pane_contents[i];
            assert(items[i as int] == (*pane_id, contents@));
            let ghost step = scan_step(before, items[i as int]);
            match pane_id {
                PaneId::Plugin(_) => {
                    assert(step == (before, None::<(PaneId, (Seq<char>, Option<Seq<char>>))>));
                },
                PaneId::Terminal(id) => {
                    let text = pane_contents_to_text(contents);
                    match find_help_trigger(text.as_str()) {
                        None => {
                            assert(step == (before, None::<(PaneId, (Seq<char>, Option<Seq<char>>))>));
                        },
                        Some(help) => {
                            let key = owned(text.as_str());
                            assert(key@ == trigger_key(text@));
                            let is_new = match self.last_help_line.get(id) {
                                Some(last) => {
                                    assert(before.contains_key(*id));
                                    assert(before[*id] == last@);
                                    let same = *last == key;
                                    same == false
                                },
                                None => {
                                    assert(!before.contains_key(*id));
                                    true
                                },
                            };
                            if is_new {
                                self.last_help_line.insert(*id, key);
                                triggers.push((*pane_id, help));
                                assert(triggers_view(triggers@) =~= out_before.push(
                                    (*pane_id, help@),
                                ));
                                assert(self@ =~= before.insert(*id, key@));
                                assert(step == (before.insert(*id, key@), Some((*pane_id, help@))));
                            } else {
                                assert(step == (before, None::<(PaneId, (Seq<char>, Option<Seq<char>>))>));
                            }
                        },
                    }
                },
            }
            i = i + 1;
        }
        assert(items.take(pane_contents@.len() as int) =~= items);
        triggers
    }
}

} // verus!

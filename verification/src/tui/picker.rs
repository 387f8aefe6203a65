//! How the path picker changes while one types.

use vstd::prelude::*;

use crate::paths::{same_components, same_path};
use crate::text::{chars_of, ends_with, ends_with_char, push_char, text_between, texts};
use crate::tui::spotlight::{
    common_prefix, filter_entries, longest_common_prefix, offered, opt_text, split_input,
    split_typed, ReqView, SpotlightEntry, SpotlightReq, SpotlightResp, SpotlightState,
    SpotlightView, DEBOUNCE_NS,
};

verus! {

/// A path with a slash at its end.
pub open spec fn with_slash(p: Seq<char>) -> Seq<char> {
    if ends_with(p, '/') {
        p
    } else {
        p.push('/')
    }
}

/// The path of an entry; that of a directory ends in a slash.
pub open spec fn entry_path(dir: Seq<char>, e: SpotlightEntry) -> Seq<char> {
    let p = with_slash(dir) + e.name@;
    if e.is_dir {
        p.push('/')
    } else {
        p
    }
}

/// The start of a text up to its last slash, the slash included.
pub open spec fn upto_slash(s: Seq<char>) -> Seq<char>
    decreases s.len(),
{
    if s.len() == 0 || s.last() == '/' {
        s
    } else {
        upto_slash(s.drop_last())
    }
}

/// A path without its last component.
pub open spec fn without_component(s: Seq<char>) -> Seq<char> {
    let t = upto_slash(
        if ends_with(s, '/') {
            s.drop_last()
        } else {
            s
        },
    );
    if t.len() == 0 {
        "/"@
    } else {
        t
    }
}

/// The next generation of requests.
pub open spec fn next_generation(g: u64) -> u64 {
    if g == u64::MAX {
        0
    } else {
        (g + 1) as u64
    }
}

/// The names of entries.
pub open spec fn entry_names(s: Seq<SpotlightEntry>) -> Seq<Seq<char>> {
    s.map_values(|e: SpotlightEntry| e.name@)
}

/// The picker when it opens.
pub open spec fn fresh_picker(input: Seq<char>, now: u64) -> SpotlightView {
    SpotlightView {
        input,
        candidates: Seq::empty(),
        selected: 0,
        changed_at: now,
        pending: true,
        generation: 0,
        cache: None,
    }
}

impl SpotlightView {
    /// The selected entry is one of those that are offered, or the first.
    pub open spec fn wf(self) -> bool {
        self.selected == 0 || self.selected < self.candidates.len()
    }

    /// With other input.
    pub open spec fn typed(self, input: Seq<char>, now: u64) -> SpotlightView {
        SpotlightView { input, pending: true, changed_at: now, selected: 0, ..self }
    }

    /// With other entries on offer.
    pub open spec fn offering(self, candidates: Seq<SpotlightEntry>) -> SpotlightView {
        SpotlightView {
            candidates,
            selected: if self.selected >= candidates.len() {
                0
            } else {
                self.selected
            },
            ..self
        }
    }

    /// Whether a directory is to be read now: the input has changed, and typing
    /// has rested; or it is asked for.
    pub open spec fn due(self, force: bool, now: u64) -> bool {
        force || (self.pending && now >= self.changed_at && now - self.changed_at >= DEBOUNCE_NS)
    }

    /// The directory to be read for the input. What was read of it before is
    /// offered meanwhile.
    pub open spec fn refreshed(self, force: bool, now: u64, home: Option<Seq<char>>) -> (
        SpotlightView,
        Option<ReqView>,
    ) {
        if !self.due(force, now) {
            (self, None)
        } else {
            let (parent, partial) = split_typed(self.input, home);
            let g = next_generation(self.generation);
            let s = SpotlightView { pending: false, generation: g, ..self };
            (
                match self.cache {
                    Some((dir, entries)) => if same_components(dir, parent) {
                        s.offering(offered(entries, partial))
                    } else {
                        s
                    },
                    None => s,
                },
                Some(ReqView { generation: g, parent, partial }),
            )
        }
    }

    /// With other input, and the directory to be read for it.
    pub open spec fn retyped(self, input: Seq<char>, now: u64, home: Option<Seq<char>>) -> (
        SpotlightView,
        Option<ReqView>,
    ) {
        self.typed(input, now).refreshed(true, now, home)
    }

    /// What the answer to a request changes. An answer to an older request than
    /// the last changes nothing.
    pub open spec fn answered(
        self,
        generation: u64,
        parent: Seq<char>,
        entries: Seq<SpotlightEntry>,
        home: Option<Seq<char>>,
    ) -> SpotlightView {
        if generation != self.generation {
            self
        } else {
            SpotlightView { cache: Some((parent, entries)), ..self }.offering(
                offered(entries, split_typed(self.input, home).1),
            )
        }
    }

    /// The input that a completion gives: the only entry on offer, the start
    /// that all share, or the selected entry where they share none.
    pub open spec fn completion(self, home: Option<Seq<char>>) -> Seq<char> {
        let dir = split_typed(self.input, home).0;
        let shared = common_prefix(entry_names(self.candidates));
        if self.candidates.len() == 1 {
            entry_path(dir, self.candidates[0])
        } else if shared.len() > 0 {
            with_slash(dir) + shared
        } else {
            entry_path(dir, self.candidates[self.selected as int])
        }
    }

    /// With the input completed, where there is anything on offer.
    pub open spec fn completed(self, now: u64, home: Option<Seq<char>>) -> (
        SpotlightView,
        Option<ReqView>,
    ) {
        if self.candidates.len() == 0 {
            (self, None)
        } else {
            self.retyped(self.completion(home), now, home)
        }
    }
}

/// The view of an optional request.
pub open spec fn req_view(r: Option<SpotlightReq>) -> Option<ReqView> {
    match r {
        Some(q) => Some(q@),
        None => None,
    }
}

/// An answer that comes too late changes nothing.
pub proof fn stale_answers_are_ignored(
    s: SpotlightView,
    now: u64,
    home: Option<Seq<char>>,
    parent: Seq<char>,
    entries: Seq<SpotlightEntry>,
)
    ensures
        s.refreshed(true, now, home).0.answered(s.generation, parent, entries, home)
            == s.refreshed(true, now, home).0,
{
}

/// The answer to the request of a refresh is taken, and what it offers starts
/// with what was typed.
pub proof fn answer_to_last_request_is_taken(
    s: SpotlightView,
    now: u64,
    home: Option<Seq<char>>,
    parent: Seq<char>,
    entries: Seq<SpotlightEntry>,
)
    ensures
        ({
            let (t, req) = s.refreshed(true, now, home);
            let u = t.answered(req->0.generation, parent, entries, home);
            &&& req is Some
            &&& u.cache == Some((parent, entries))
            &&& u.candidates == offered(entries, req->0.partial)
        }),
{
}

/// No directory is read while one types: what was typed has to rest first, and
/// then it is read once.
pub proof fn reading_waits_for_rest(
    s: SpotlightView,
    input: Seq<char>,
    typed_at: u64,
    now: u64,
    home: Option<Seq<char>>,
)
    ensures
        now < typed_at + DEBOUNCE_NS ==> s.typed(input, typed_at).refreshed(false, now, home).1
            is None,
        now >= typed_at + DEBOUNCE_NS ==> {
            let (t, req) = s.typed(input, typed_at).refreshed(false, now, home);
            req is Some && t.refreshed(false, now, home) == (t, None::<ReqView>)
        },
{
}

fn slashed(p: &str) -> (r: String)
    ensures
        r@ == with_slash(p@),
{
    let mut s = p.to_owned();
    if !ends_with_char(p, '/') {
        push_char(&mut s, '/');
    }
    s
}

fn path_of_entry(dir: &str, e: &SpotlightEntry) -> (r: String)
    ensures
        r@ == entry_path(dir@, *e),
{
    let mut s = slashed(dir);
    s.append(&e.name);
    if e.is_dir {
        push_char(&mut s, '/');
    }
    s
}

/// A path without its last component.
pub(crate) fn drop_component(s: &str) -> (r: String)
    ensures
        r@ == without_component(s@),
{
    let chars = chars_of(s);
    let mut n: usize = if ends_with_char(s, '/') {
        chars.len() - 1
    } else {
        chars.len()
    };
    let ghost t = if ends_with(s@, '/') {
        s@.drop_last()
    } else {
        s@
    };
    assert(s@.take(n as int) =~= t);
    while n > 0 && chars[n - 1] != '/'
        invariant
            n <= chars@.len(),
            chars@ == s@,
            upto_slash(t) == upto_slash(s@.take(n as int)),
        decreases n,
    {
        assert(s@.take(n as int).drop_last() =~= s@.take(n - 1));
        n = n - 1;
    }
    let r = text_between(&chars, 0, n);
    assert(r@ =~= s@.take(n as int));
    if n == 0 {
        return "/".to_owned();
    }
    r
}

fn names_of(v: &Vec<SpotlightEntry>) -> (r: Vec<String>)
    ensures
        texts(r@) == entry_names(v@),
{
    let mut out: Vec<String> = Vec::new();
    let mut i: usize = 0;
    let ghost all = entry_names(v@);
    assert(texts(out@) =~= all.take(0));
    while i < v.len()
        invariant
            i <= v@.len(),
            all == entry_names(v@),
            texts(out@) == all.take(i as int),
        decreases v@.len() - i,
    {
        let ghost before = texts(out@);
        let n = v[i].name.clone();
        out.push(n);
        assert(texts(out@) =~= before.push(n@));
        i = i + 1;
        assert(all.take(i as int) =~= all.take(i - 1).push(n@));
    }
    assert(all.take(i as int) =~= all);
    out
}

impl SpotlightState {
    /// The picker when it opens.
    pub fn new(initial: String, now: u64) -> (r: SpotlightState)
        ensures
            r@ == fresh_picker(initial@, now),
            r@.wf(),
    {
        let r = SpotlightState {
            input: initial,
            candidates: Vec::new(),
            selected: 0,
            last_input_change: now,
            pending_refresh: true,
            current_generation: 0,
            cache: None,
        };
        assert(r@ =~= fresh_picker(initial@, now));
        r
    }

    /// Changes the input.
    pub fn set_input(&mut self, input: String, now: u64)
        ensures
            final(self)@ == old(self)@.typed(input@, now),
            final(self)@.wf(),
    {
        self.input = input;
        self.pending_refresh = true;
        self.last_input_change = now;
        self.selected = 0;
        assert(self@ =~= old(self)@.typed(input@, now));
    }

    fn offer(&mut self, candidates: Vec<SpotlightEntry>)
        ensures
            final(self)@ == old(self)@.offering(candidates@),
            final(self)@.wf(),
    {
        if self.selected >= candidates.len() {
            self.selected = 0;
        }
        self.candidates = candidates;
        assert(self@ =~= old(self)@.offering(candidates@));
    }

    /// The directory to be read for the input, if any.
    pub fn refresh(&mut self, force: bool, now: u64, home: Option<&str>) -> (r: Option<
        SpotlightReq,
    >)
        requires
            old(self)@.wf(),
        ensures
            (final(self)@, req_view(r)) == old(self)@.refreshed(force, now, opt_text(home)),
            final(self)@.wf(),
    {
        let ghost v = self@;
        if !force && !(self.pending_refresh && now >= self.last_input_change && now
            - self.last_input_change >= DEBOUNCE_NS) {
            return None;
        }
        self.pending_refresh = false;
        self.current_generation = if self.current_generation == u64::MAX {
            0
        } else {
            self.current_generation + 1
        };
        let (parent, partial) = split_input(&self.input, home);
        let ghost s = SpotlightView {
            pending: false,
            generation: next_generation(v.generation),
            ..v
        };
        assert(self@ =~= s);
        let hits: Option<Vec<SpotlightEntry>> = match &self.cache {
            Some((dir, entries)) => if same_path(dir, &parent) {
                Some(filter_entries(entries, &partial))
            } else {
                None
            },
            None => None,
        };
        if let Some(h) = hits {
            self.offer(h);
        }
        Some(SpotlightReq { generation: self.current_generation, parent, partial })
    }

    /// Changes the input, and says which directory is to be read for it.
    pub fn retype(&mut self, input: String, now: u64, home: Option<&str>) -> (r: Option<
        SpotlightReq,
    >)
        ensures
            (final(self)@, req_view(r)) == old(self)@.retyped(input@, now, opt_text(home)),
            final(self)@.wf(),
    {
        self.set_input(input, now);
        self.refresh(true, now, home)
    }

    /// Takes the answer to a request.
    pub fn answer(&mut self, resp: SpotlightResp, home: Option<&str>)
        requires
            old(self)@.wf(),
        ensures
            final(self)@ == old(self)@.answered(
                resp.generation,
                resp.parent@,
                resp.entries@,
                opt_text(home),
            ),
            final(self)@.wf(),
    {
        let ghost v = self@;
        if resp.generation != self.current_generation {
            return;
        }
        let (_, partial) = split_input(&self.input, home);
        let hits = filter_entries(&resp.entries, &partial);
        self.cache = Some((resp.parent, resp.entries));
        assert(self@ =~= (SpotlightView { cache: Some((resp.parent@, resp.entries@)), ..v }));
        self.offer(hits);
    }

    /// Completes the input.
    pub fn complete(&mut self, now: u64, home: Option<&str>) -> (r: Option<SpotlightReq>)
        requires
            old(self)@.wf(),
        ensures
            (final(self)@, req_view(r)) == old(self)@.completed(now, opt_text(home)),
            final(self)@.wf(),
    {
        if self.candidates.len() == 0 {
            return None;
        }
        let (dir, _) = split_input(&self.input, home);
        let input = if self.candidates.len() == 1 {
            path_of_entry(&dir, &self.candidates[0])
        } else {
            let shared = longest_common_prefix(&names_of(&self.candidates));
            if shared.as_str().unicode_len() > 0 {
                let mut s = slashed(&dir);
                s.append(&shared);
                s
            } else {
                path_of_entry(&dir, &self.candidates[self.selected])
            }
        };
        self.retype(input, now, home)
    }
}

} // verus!

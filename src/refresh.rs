use vstd::prelude::*;
use vstd::string::StringSliceAdditionalSpecFns;
use vstd::utf8::encode_utf8;
use crate::config::{ConfigModel, names_view, valid};
use crate::level::LevelFilter;
use crate::registry::{Category, Registry};
use crate::topology::{Topology, TopologyError, TopologyFault, effective_level, receives, resolved};
use crate::value::Value;

verus! {

/// The configuration in force after a refresh attempt with `doc`: the new
/// one if it resolves in full, the previous one otherwise.
pub open spec fn after_refresh(
    before: ConfigModel,
    doc: Value,
    appender_kinds: Set<Seq<char>>,
    encoder_kinds: Set<Seq<char>>,
) -> ConfigModel {
    match resolved(doc, appender_kinds, encoder_kinds) {
        Ok(c) => c,
        Err(_) => before,
    }
}

/// A remembered lookup: its logger name, level and receiving appenders.
pub type CacheEntry = (String, LevelFilter, Vec<String>);

/// `e` holds the true lookup results for its name under `c`.
pub open spec fn entry_ok(c: ConfigModel, e: CacheEntry) -> bool {
    e.1 == effective_level(c, encode_utf8(e.0@)) && names_view(e.2@).no_duplicates()
        && forall|a: Seq<char>|
        #[trigger] names_view(e.2@).contains(a) <==> receives(c, encode_utf8(e.0@), a)
}

/// Owns the published topology and replaces it only with one built in full.
/// Lookups are remembered per logger name until the next successful refresh.
pub struct Controller {
    active: Topology,
    cache: Vec<CacheEntry>,
}

fn copy_names(ns: &Vec<String>) -> (r: Vec<String>)
    ensures
        names_view(r@) == names_view(ns@),
{
    let mut out: Vec<String> = Vec::new();
    let mut i: usize = 0;
    while i < ns.len()
        invariant
            0 <= i <= ns@.len(),
            names_view(out@) =~= names_view(ns@).subrange(0, i as int),
        decreases ns@.len() - i,
    {
        let ghost before = out@;
        out.push(ns[i].clone());
        proof {
            assert(names_view(out@) =~= names_view(before).push(ns@[i as int]@));
        }
        i = i + 1;
    }
    proof {
        assert(names_view(ns@).subrange(0, i as int) =~= names_view(ns@));
    }
    out
}

impl Controller {
    /// Every remembered lookup is true of the published topology. Every
    /// controller made by `new` has this, and every method keeps it.
    pub closed spec fn wf(&self) -> bool {
        forall|i: int| 0 <= i < self.cache@.len() ==> entry_ok(self.active.config(), #[trigger] self.cache@[i])
    }

    /// The configuration of the published topology.
    pub closed spec fn active(&self) -> ConfigModel {
        self.active.config()
    }

    /// Seconds between checks of the configuration source, if any: the
    /// refresh rate of the published configuration.
    pub open spec fn interval(&self) -> Option<u64> {
        self.active().refresh_rate
    }

    /// Publishes `initial`; checks then follow its refresh interval.
    pub fn new(initial: Topology) -> (r: Controller)
        ensures
            r.wf(),
            r.active() == initial.config(),
    {
        Controller { active: initial, cache: Vec::new() }
    }

    /// The published topology, for one log call.
    pub fn topology(&self) -> (r: &Topology)
        ensures
            r.config() == self.active(),
            valid(self.active()),
    {
        self.active.check_wf();
        &self.active
    }

    /// Whether a check is due after `elapsed` seconds of waiting. Without an
    /// interval no check is ever due.
    pub fn due(&self, elapsed: u64) -> (r: bool)
        ensures
            r == (self.interval() is Some && elapsed >= self.interval()->Some_0),
    {
        match self.active.refresh_rate() {
            Some(s) => elapsed >= s,
            None => false,
        }
    }

    /// The level and the receiving appenders of logger `name` in the
    /// published topology, remembered for later calls.
    pub fn lookup(&mut self, name: &str) -> (r: (LevelFilter, Vec<String>))
        requires
            old(self).wf(),
        ensures
            final(self).wf(),
            final(self).active() == old(self).active(),
            r.0 == effective_level(old(self).active(), name.spec_bytes()),
            names_view(r.1@).no_duplicates(),
            forall|a: Seq<char>|
                #[trigger] names_view(r.1@).contains(a) <==> receives(old(self).active(), name.spec_bytes(), a),
    {
        let key = name.to_owned();
        let mut i: usize = 0;
        while i < self.cache.len()
            invariant
                0 <= i <= self.cache@.len(),
                key@ == name@,
                forall|j: int| 0 <= j < self.cache@.len() ==> entry_ok(self.active.config(), #[trigger] self.cache@[j]),
            decreases self.cache@.len() - i,
        {
            if self.cache[i].0 == key {
                proof {
                    assert(entry_ok(self.active.config(), self.cache@[i as int]));
                }
                return (self.cache[i].1, copy_names(&self.cache[i].2));
            }
            i = i + 1;
        }
        let level = self.active.effective_level(name);
        let apps = self.active.effective_appenders(name);
        let kept = copy_names(&apps);
        let ghost c = self.active.config();
        proof {
            assert(entry_ok(c, (key, level, kept)));
        }
        self.cache.push((key, level, kept));
        proof {
            assert forall|j: int| 0 <= j < self.cache@.len() implies entry_ok(self.active.config(), #[trigger] self.cache@[j]) by {
                if j < self.cache@.len() - 1 {
                    assert(self.cache@[j] == old(self).cache@[j]);
                }
            }
        }
        (level, apps)
    }

    /// Rebuilds from a freshly read document and publishes the result only if
    /// every step succeeds; otherwise the previous topology stays in force and
    /// the error is handed back for reporting.
    pub fn refresh(&mut self, doc: Value, registry: &Registry) -> (r: Result<(), TopologyError>)
        requires
            old(self).wf(),
        ensures
            final(self).wf(),
            valid(final(self).active()),
            final(self).active() == after_refresh(old(self).active(), doc, registry.kinds(Category::Appender), registry.kinds(Category::Encoder)),
            match r {
                Ok(_) => resolved(doc, registry.kinds(Category::Appender), registry.kinds(Category::Encoder)) is Ok,
                Err(e) => resolved(doc, registry.kinds(Category::Appender), registry.kinds(Category::Encoder)) == Err::<ConfigModel, TopologyFault>(e@),
            },
    {
        match Topology::from_document(doc, registry) {
            Ok(t) => {
                self.cache = Vec::new();
                self.active = t;
                self.active.check_wf();
                Ok(())
            },
            Err(e) => {
                self.active.check_wf();
                Err(e)
            },
        }
    }
}

/// A refresh whose document does not resolve leaves, for every logger name,
/// the effective level and the receiving appenders as they were.
pub proof fn lemma_failed_refresh_keeps_results(
    before: ConfigModel,
    doc: Value,
    appender_kinds: Set<Seq<char>>,
    encoder_kinds: Set<Seq<char>>,
    n: Seq<u8>,
    a: Seq<char>,
)
    requires
        resolved(doc, appender_kinds, encoder_kinds) is Err,
    ensures
        effective_level(after_refresh(before, doc, appender_kinds, encoder_kinds), n) == effective_level(before, n),
        receives(after_refresh(before, doc, appender_kinds, encoder_kinds), n, a) == receives(before, n, a),
{
}

} // verus!

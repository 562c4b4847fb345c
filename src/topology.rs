use vstd::prelude::*;
use vstd::utf8::encode_utf8;
use vstd::string::StringSliceAdditionalSpecFns;
use crate::level::LevelFilter;
use crate::value::Value;
use crate::config::{
    Appender, AppenderModel, Config, ConfigModel, Fault, LoggerModel, ParseError, appender_names,
    contains_name, first_missing, first_missing_in, names_view, parsed, valid,
};
use crate::registry::{BuildError, Category, Registry};
use crate::console::{ConsoleAppenderDeserializer, console_kind, console_settings};

verus! {

/// The bytes of a logger name, on which the dotted hierarchy is defined.
pub open spec fn name_bytes(s: Seq<char>) -> Seq<u8> {
    encode_utf8(s)
}

/// `l` is the name `n` itself or one of its dotted ancestors (`"a"` and
/// `"a.b"` for `"a.b.c"`).
pub open spec fn governs(l: Seq<u8>, n: Seq<u8>) -> bool {
    l == n || (l.len() < n.len() && n.subrange(0, l.len() as int) == l && n[l.len() as int] == 46u8)
}

/// The configured logger among `ls` that is the most specific ancestor of `n`
/// (or `n` itself); on equal names the first.
pub open spec fn nearest(ls: Seq<(Seq<char>, LoggerModel)>, n: Seq<u8>) -> Option<int>
    decreases ls.len(),
{
    if ls.len() == 0 {
        None
    } else {
        let b = nearest(ls.drop_last(), n);
        let i: int = ls.len() - 1;
        if governs(name_bytes(ls[i].0), n) && (b is None || name_bytes(ls[i].0).len()
            > name_bytes(ls[b->Some_0].0).len()) {
            Some(i)
        } else {
            b
        }
    }
}

/// The level in force for logger name `n`: that of its nearest configured
/// ancestor, or the root's.
pub open spec fn effective_level(c: ConfigModel, n: Seq<u8>) -> LevelFilter {
    match nearest(c.loggers, n) {
        Some(i) => c.loggers[i].1.level,
        None => c.root.level,
    }
}

/// The walk from `n` up to the root stops before reaching a name of
/// `len` bytes: a more specific governing logger is not additive.
pub open spec fn blocked(c: ConfigModel, n: Seq<u8>, len: int) -> bool {
    exists|j: int|
        0 <= j < c.loggers.len() && #[trigger] governs(name_bytes(c.loggers[j].0), n)
            && name_bytes(c.loggers[j].0).len() > len && c.loggers[j].1.additive == Some(false)
}

/// Appender `a` receives the records of logger name `n`: some governing
/// logger that the walk reaches lists it, or the walk reaches the root and
/// the root lists it.
pub open spec fn receives(c: ConfigModel, n: Seq<u8>, a: Seq<char>) -> bool {
    (exists|i: int|
        0 <= i < c.loggers.len() && #[trigger] governs(name_bytes(c.loggers[i].0), n)
            && c.loggers[i].1.appenders.contains(a) && !blocked(c, n, name_bytes(c.loggers[i].0).len() as int))
        || (c.root.appenders.contains(a) && !blocked(c, n, -1))
}

/// What an appender failure means for a topology.
pub open spec fn build_fault_of(e: BuildError) -> TopologyFault {
    match e {
        BuildError::UnknownKind(k) => TopologyFault::UnknownKind(k@),
        BuildError::InvalidConfig(f) => TopologyFault::InvalidConfig(f@),
        BuildError::Io(m) => TopologyFault::Io(m@),
    }
}

/// Why appender `a` cannot be built: its kind is not registered, or it is a
/// console appender whose settings do not read.
pub open spec fn appender_fault(a: AppenderModel, appender_kinds: Set<Seq<char>>, encoder_kinds: Set<Seq<char>>) -> Option<TopologyFault> {
    if !appender_kinds.contains(a.kind) {
        Some(TopologyFault::UnknownKind(a.kind))
    } else if a.kind == console_kind() {
        match console_settings(a.config, encoder_kinds) {
            Ok(_) => None,
            Err((true, n)) => Some(TopologyFault::UnknownKind(n)),
            Err((false, n)) => Some(TopologyFault::InvalidConfig(n)),
        }
    } else {
        None
    }
}

/// The failure of the first appender, in order, that cannot be built.
pub open spec fn first_build_fault(
    apps: Seq<(Seq<char>, AppenderModel)>,
    appender_kinds: Set<Seq<char>>,
    encoder_kinds: Set<Seq<char>>,
) -> Option<TopologyFault>
    decreases apps.len(),
{
    if apps.len() == 0 {
        None
    } else {
        match first_build_fault(apps.drop_last(), appender_kinds, encoder_kinds) {
            Some(f) => Some(f),
            None => appender_fault(apps.last().1, appender_kinds, encoder_kinds),
        }
    }
}

/// Why no topology was built from a document.
#[derive(Debug, PartialEq, Eq)]
pub enum TopologyError {
    Parse(ParseError),
    Build(BuildError),
}

/// A resolved, immutable logging topology: a valid configuration whose
/// appenders all have registered kinds and, for console appenders, readable
/// settings. Handle `i` stands for the `i`-th appender, whose sink the caller
/// makes from `appender(i)`; the level and appenders of any logger name can
/// be looked up.
pub struct Topology {
    config: Config,
}

fn governs_exec(l: &[u8], n: &[u8]) -> (r: bool)
    ensures
        r == governs(l@, n@),
{
    if l.len() > n.len() {
        return false;
    }
    let mut i: usize = 0;
    while i < l.len()
        invariant
            l@.len() <= n@.len(),
            0 <= i <= l@.len(),
            forall|j: int| 0 <= j < i ==> l@[j] == n@[j],
        decreases l@.len() - i,
    {
        if l[i] != n[i] {
            proof {
                assert(n@.subrange(0, l@.len() as int)[i as int] != l@[i as int]);
            }
            return false;
        }
        i = i + 1;
    }
    proof {
        assert(n@.subrange(0, l@.len() as int) =~= l@);
    }
    if l.len() == n.len() {
        proof {
            assert(l@ =~= n@);
        }
        true
    } else {
        n[l.len()] == 46u8
    }
}

/// The members of `s.push(x)` are those of `s` and `x`.
proof fn lemma_push_contains(s: Seq<Seq<char>>, x: Seq<char>)
    ensures
        forall|a: Seq<char>| #[trigger] s.push(x).contains(a) <==> (s.contains(a) || a == x),
{
    assert forall|a: Seq<char>| #[trigger] s.push(x).contains(a) <==> (s.contains(a) || a == x) by {
        if s.push(x).contains(a) && a != x {
            let j = choose|j: int| 0 <= j < s.len() + 1 && s.push(x)[j] == a;
            assert(s[j] == a);
        }
        if a == x {
            assert(s.push(x)[s.len() as int] == a);
        }
        if s.contains(a) {
            let j = choose|j: int| 0 <= j < s.len() && s[j] == a;
            assert(s.push(x)[j] == a);
        }
    }
}

/// Adds to `out` each name of `xs` that it does not hold yet.
fn add_all(out: &mut Vec<String>, xs: &Vec<String>)
    requires
        names_view(old(out)@).no_duplicates(),
    ensures
        names_view(final(out)@).no_duplicates(),
        forall|a: Seq<char>|
            #[trigger] names_view(final(out)@).contains(a) <==> (names_view(old(out)@).contains(a)
                || names_view(xs@).contains(a)),
{
    let ghost start = names_view(out@);
    let ghost mut seen: Seq<Seq<char>> = Seq::empty();
    let mut k: usize = 0;
    while k < xs.len()
        invariant
            0 <= k <= xs@.len(),
            seen == names_view(xs@).subrange(0, k as int),
            names_view(out@).no_duplicates(),
            forall|a: Seq<char>| names_view(out@).contains(a) <==> (start.contains(a) || seen.contains(a)),
        decreases xs@.len() - k,
    {
        let ghost before = names_view(out@);
        let ghost x = xs@[k as int]@;
        proof {
            assert(before.subrange(0, out@.len() as int) =~= before);
            lemma_push_contains(seen, x);
            lemma_push_contains(before, x);
        }
        if !contains_name(out, out.len(), &xs[k]) {
            out.push(xs[k].clone());
            proof {
                assert(names_view(out@) =~= before.push(x));
                assert forall|i: int, j: int|
                    0 <= i < names_view(out@).len() && 0 <= j < names_view(out@).len() && i != j
                        implies names_view(out@)[i] != names_view(out@)[j] by {
                    if i == before.len() as int {
                        assert(names_view(out@)[j] == before[j]);
                    } else if j == before.len() as int {
                        assert(names_view(out@)[i] == before[i]);
                    }
                }
            }
        }
        proof {
            seen = seen.push(x);
            assert(seen =~= names_view(xs@).subrange(0, k + 1));
        }
        k = k + 1;
    }
    proof {
        assert(seen =~= names_view(xs@));
    }
}

/// What went wrong on the way from a document to a topology.
pub enum TopologyFault {
    Parse(Fault),
    UnknownKind(Seq<char>),
    InvalidConfig(Seq<char>),
    Io(Seq<char>),
}

impl View for TopologyError {
    type V = TopologyFault;

    open spec fn view(&self) -> TopologyFault {
        match self {
            TopologyError::Parse(e) => TopologyFault::Parse(e@),
            TopologyError::Build(e) => build_fault_of(*e),
        }
    }
}

/// The configuration a document yields under the registered kinds: reading
/// and checking first, then every appender must be buildable.
pub open spec fn resolved(v: Value, appender_kinds: Set<Seq<char>>, encoder_kinds: Set<Seq<char>>) -> Result<ConfigModel, TopologyFault> {
    match parsed(v) {
        Err(f) => Err(TopologyFault::Parse(f)),
        Ok(c) => match first_build_fault(c.appenders, appender_kinds, encoder_kinds) {
            Some(f) => Err(f),
            None => Ok(c),
        },
    }
}

impl Topology {
    /// Only checked configurations are ever resolved.
    #[verifier::type_invariant]
    spec fn inv(&self) -> bool {
        valid(self.config@)
    }

    /// The configuration this topology was resolved from.
    pub closed spec fn config(&self) -> ConfigModel {
        self.config@
    }

    /// A topology only ever holds a valid configuration.
    pub open spec fn wf(&self) -> bool {
        valid(self.config())
    }

    /// Resolves a checked configuration: every appender's kind must be
    /// registered, and a console appender's settings must read. The first
    /// appender that fails makes the whole resolution fail.
    pub fn build(config: Config, registry: &Registry) -> (r: Result<Topology, BuildError>)
        requires
            valid(config@),
        ensures
            match r {
                Ok(t) => t.config() == config@ && t.wf() && first_build_fault(
                    config@.appenders,
                    registry.kinds(Category::Appender),
                    registry.kinds(Category::Encoder),
                ) is None,
                Err(e) => first_build_fault(
                    config@.appenders,
                    registry.kinds(Category::Appender),
                    registry.kinds(Category::Encoder),
                ) == Some(build_fault_of(e)),
            },
    {
        let ghost apps = config@.appenders;
        let ghost ak = registry.kinds(Category::Appender);
        let ghost ek = registry.kinds(Category::Encoder);
        let console = "console".to_owned();
        let mut i: usize = 0;
        while i < config.appenders.len()
            invariant
                apps == config@.appenders,
                ak == registry.kinds(Category::Appender),
                ek == registry.kinds(Category::Encoder),
                console@ == console_kind(),
                0 <= i <= config.appenders@.len(),
                first_build_fault(apps.subrange(0, i as int), ak, ek) is None,
            decreases config.appenders@.len() - i,
        {
            let spec = &config.appenders[i].1;
            proof {
                assert(apps.subrange(0, i + 1).drop_last() =~= apps.subrange(0, i as int));
                assert(apps.subrange(0, i + 1).last() == apps[i as int]);
                assert(apps[i as int].1 == spec@);
            }
            let checked = match registry.check(Category::Appender, &spec.kind) {
                Ok(()) => if spec.kind == console {
                    ConsoleAppenderDeserializer.check(&spec.config, registry)
                } else {
                    Ok(())
                },
                Err(e) => Err(e),
            };
            if let Err(e) = checked {
                proof {
                    lemma_build_fault_persists(apps, ak, ek, i + 1);
                }
                return Err(e);
            }
            i = i + 1;
        }
        proof {
            assert(apps.subrange(0, i as int) =~= apps);
        }
        Ok(Topology { config })
    }

    /// Reads, checks and builds a document in one step.
    pub fn from_document(v: Value, registry: &Registry) -> (r: Result<Topology, TopologyError>)
        ensures
            match r {
                Ok(t) => resolved(v, registry.kinds(Category::Appender), registry.kinds(Category::Encoder))
                    == Ok::<ConfigModel, TopologyFault>(t.config()) && t.wf(),
                Err(e) => resolved(v, registry.kinds(Category::Appender), registry.kinds(Category::Encoder))
                    == Err::<ConfigModel, TopologyFault>(e@),
            },
    {
        let c = match Config::parse(v) {
            Ok(c) => c,
            Err(e) => return Err(TopologyError::Parse(e)),
        };
        match Topology::build(c, registry) {
            Ok(t) => Ok(t),
            Err(e) => Err(TopologyError::Build(e)),
        }
    }

    /// The refresh interval of the configuration, in seconds.
    pub fn refresh_rate(&self) -> (r: Option<u64>)
        ensures
            r == self.config().refresh_rate,
    {
        self.config.refresh_rate
    }

    /// Every topology holds a valid configuration.
    pub fn check_wf(&self)
        ensures
            self.wf(),
    {
        proof {
            use_type_invariant(self);
        }
    }

    /// The number of built appenders; handle `i` stands for the `i`-th.
    pub fn appender_count(&self) -> (r: usize)
        ensures
            r == self.config().appenders.len(),
    {
        self.config.appenders.len()
    }

    /// The name and settings of the appender with handle `i`.
    pub fn appender(&self, i: usize) -> (r: (&String, &Appender))
        requires
            i < self.config().appenders.len(),
        ensures
            (r.0@, r.1@) == self.config().appenders[i as int],
    {
        let e = &self.config.appenders[i];
        (&e.0, &e.1)
    }

    /// The handle of the appender named `name`.
    pub fn handle_of(&self, name: &String) -> (r: Option<usize>)
        ensures
            match r {
                Some(i) => i < self.config().appenders.len() && self.config().appenders[i as int].0 == name@,
                None => !appender_names(self.config()).contains(name@),
            },
    {
        let ghost m = self.config@;
        let mut i: usize = 0;
        while i < self.config.appenders.len()
            invariant
                m == self.config@,
                0 <= i <= self.config.appenders@.len(),
                forall|j: int| 0 <= j < i ==> m.appenders[j].0 != name@,
            decreases self.config.appenders@.len() - i,
        {
            if self.config.appenders[i].0 == *name {
                return Some(i);
            }
            i = i + 1;
        }
        proof {
            if appender_names(m).contains(name@) {
                let j = choose|j: int| 0 <= j < m.appenders.len() && appender_names(m)[j] == name@;
                assert(m.appenders[j].0 == name@);
            }
        }
        None
    }

    /// The level in force for logger `name`.
    pub fn effective_level(&self, name: &str) -> (r: LevelFilter)
        ensures
            r == effective_level(self.config(), name.spec_bytes()),
    {
        let n = name.as_bytes();
        let ls = &self.config.loggers;
        let ghost m = self.config@.loggers;
        let mut best: Option<usize> = None;
        let mut best_len: usize = 0;
        let mut i: usize = 0;
        while i < ls.len()
            invariant
                m == self.config@.loggers,
                ls == &self.config.loggers,
                m.len() == ls@.len(),
                n@ == name.spec_bytes(),
                0 <= i <= ls@.len(),
                match best {
                    Some(b) => nearest(m.subrange(0, i as int), n@) == Some(b as int) && b < i
                        && best_len == name_bytes(m[b as int].0).len(),
                    None => nearest(m.subrange(0, i as int), n@) is None,
                },
            decreases ls@.len() - i,
        {
            let l = ls[i].0.as_str().as_bytes();
            proof {
                let s = m.subrange(0, i + 1);
                assert(s.drop_last() =~= m.subrange(0, i as int));
                assert(m[i as int].0 == ls@[i as int].0@);
                assert(s[i as int] == m[i as int]);
                if best is Some {
                    assert(s[best->Some_0 as int] == m[best->Some_0 as int]);
                }
            }
            if governs_exec(l, n) && (best.is_none() || l.len() > best_len) {
                best = Some(i);
                best_len = l.len();
            }
            i = i + 1;
        }
        proof {
            assert(m.subrange(0, i as int) =~= m);
        }
        match best {
            Some(b) => ls[b].1.level,
            None => self.config.root.level,
        }
    }

    /// The appenders that receive the records of logger `name`, each once.
    pub fn effective_appenders(&self, name: &str) -> (r: Vec<String>)
        ensures
            names_view(r@).no_duplicates(),
            forall|a: Seq<char>| names_view(r@).contains(a) <==> receives(self.config(), name.spec_bytes(), a),
    {
        let n = name.as_bytes();
        let ls = &self.config.loggers;
        let ghost c = self.config@;
        let ghost m = c.loggers;
        // The longest non-additive logger on the way to the root, if any.
        let mut has_cut = false;
        let mut cut: usize = 0;
        let mut i: usize = 0;
        while i < ls.len()
            invariant
                c == self.config@,
                m == c.loggers,
                ls == &self.config.loggers,
                m.len() == ls@.len(),
                n@ == name.spec_bytes(),
                0 <= i <= ls@.len(),
                forall|j: int|
                    0 <= j < i && #[trigger] governs(name_bytes(m[j].0), n@) && m[j].1.additive == Some(false)
                        ==> has_cut && name_bytes(m[j].0).len() <= cut,
                has_cut ==> exists|j: int|
                    0 <= j < i && #[trigger] governs(name_bytes(m[j].0), n@) && m[j].1.additive == Some(false)
                        && name_bytes(m[j].0).len() == cut,
            decreases ls@.len() - i,
        {
            let l = ls[i].0.as_str().as_bytes();
            proof {
                assert(m[i as int].0 == ls@[i as int].0@);
                assert(m[i as int].1.additive == ls@[i as int].1.additive);
            }
            if governs_exec(l, n) && !ls[i].1.is_additive() && (!has_cut || l.len() > cut) {
                has_cut = true;
                cut = l.len();
                proof {
                    assert(governs(name_bytes(m[i as int].0), n@));
                }
            }
            i = i + 1;
        }
        proof {
            assert forall|len: int| blocked(c, n@, len) <==> (has_cut && cut > len) by {
                if has_cut && cut > len {
                    let j = choose|j: int|
                        0 <= j < m.len() && #[trigger] governs(name_bytes(m[j].0), n@) && m[j].1.additive == Some(false)
                            && name_bytes(m[j].0).len() == cut;
                    assert(governs(name_bytes(c.loggers[j].0), n@));
                }
            }
        }
        let mut out: Vec<String> = Vec::new();
        proof {
            assert(names_view(out@) =~= Seq::<Seq<char>>::empty());
        }
        let mut i: usize = 0;
        while i < ls.len()
            invariant
                c == self.config@,
                m == c.loggers,
                ls == &self.config.loggers,
                m.len() == ls@.len(),
                n@ == name.spec_bytes(),
                0 <= i <= ls@.len(),
                forall|len: int| blocked(c, n@, len) <==> (has_cut && cut > len),
                names_view(out@).no_duplicates(),
                forall|a: Seq<char>|
                    names_view(out@).contains(a) <==> exists|j: int|
                        0 <= j < i && #[trigger] governs(name_bytes(m[j].0), n@) && m[j].1.appenders.contains(a)
                            && !blocked(c, n@, name_bytes(m[j].0).len() as int),
            decreases ls@.len() - i,
        {
            let l = ls[i].0.as_str().as_bytes();
            let ghost before = names_view(out@);
            proof {
                assert(m[i as int].0 == ls@[i as int].0@);
                assert(m[i as int].1.appenders == names_view(ls@[i as int].1.appenders@));
                assert(l@ == name_bytes(m[i as int].0));
                assert forall|a: Seq<char>| before.contains(a) <==> exists|j: int|
                    0 <= j < i && #[trigger] governs(name_bytes(m[j].0), n@) && m[j].1.appenders.contains(a)
                        && !blocked(c, n@, name_bytes(m[j].0).len() as int) by {
                    assert(names_view(out@).contains(a) == before.contains(a));
                }
            }
            let take = governs_exec(l, n) && (!has_cut || l.len() >= cut);
            if take {
                let own = &ls[i].1.appenders;
                assert(names_view(own@) == m[i as int].1.appenders);
                add_all(&mut out, own);
            }
            proof {
                assert forall|a: Seq<char>|
                    names_view(out@).contains(a) <==> exists|j: int|
                        0 <= j < i + 1 && #[trigger] governs(name_bytes(m[j].0), n@) && m[j].1.appenders.contains(a)
                            && !blocked(c, n@, name_bytes(m[j].0).len() as int) by {
                    if names_view(out@).contains(a) && !before.contains(a) {
                        assert(take);
                        assert(governs(name_bytes(m[i as int].0), n@));
                        assert(m[i as int].1.appenders.contains(a));
                        assert(!blocked(c, n@, name_bytes(m[i as int].0).len() as int));
                    }
                    if names_view(out@).contains(a) && before.contains(a) {
                        let j = choose|j: int|
                            0 <= j < i && #[trigger] governs(name_bytes(m[j].0), n@) && m[j].1.appenders.contains(a)
                                && !blocked(c, n@, name_bytes(m[j].0).len() as int);
                        assert(0 <= j < i + 1);
                    }
                    if exists|j: int|
                        0 <= j < i + 1 && #[trigger] governs(name_bytes(m[j].0), n@) && m[j].1.appenders.contains(a)
                            && !blocked(c, n@, name_bytes(m[j].0).len() as int) {
                        let j = choose|j: int|
                            0 <= j < i + 1 && #[trigger] governs(name_bytes(m[j].0), n@) && m[j].1.appenders.contains(a)
                                && !blocked(c, n@, name_bytes(m[j].0).len() as int);
                        if j < i {
                            assert(before.contains(a));
                        } else {
                            assert(j == i);
                            assert(take);
                            assert(names_view(ls@[i as int].1.appenders@).contains(a));
                        }
                    }
                }
            }
            i = i + 1;
        }
        if !has_cut {
            add_all(&mut out, &self.config.root.appenders);
        }
        proof {
            assert forall|a: Seq<char>|
                names_view(out@).contains(a) <==> receives(c, n@, a) by {
                if exists|j: int|
                    0 <= j < m.len() && #[trigger] governs(name_bytes(m[j].0), n@) && m[j].1.appenders.contains(a)
                        && !blocked(c, n@, name_bytes(m[j].0).len() as int) {
                    let j = choose|j: int|
                        0 <= j < m.len() && #[trigger] governs(name_bytes(m[j].0), n@) && m[j].1.appenders.contains(a)
                            && !blocked(c, n@, name_bytes(m[j].0).len() as int);
                    assert(governs(name_bytes(c.loggers[j].0), n@));
                }
                if exists|j: int|
                    0 <= j < c.loggers.len() && #[trigger] governs(name_bytes(c.loggers[j].0), n@)
                        && c.loggers[j].1.appenders.contains(a) && !blocked(c, n@, name_bytes(c.loggers[j].0).len() as int) {
                    let j = choose|j: int|
                        0 <= j < c.loggers.len() && #[trigger] governs(name_bytes(c.loggers[j].0), n@)
                            && c.loggers[j].1.appenders.contains(a) && !blocked(c, n@, name_bytes(c.loggers[j].0).len() as int);
                    assert(governs(name_bytes(m[j].0), n@));
                }
            }
        }
        out
    }
}

proof fn lemma_none_missing(refs: Seq<Seq<char>>, defined: Seq<Seq<char>>)
    requires
        first_missing(refs, defined) is None,
    ensures
        forall|i: int| 0 <= i < refs.len() ==> defined.contains(#[trigger] refs[i]),
    decreases refs.len(),
{
    if refs.len() > 0 {
        lemma_none_missing(refs.drop_last(), defined);
        assert forall|i: int| 0 <= i < refs.len() implies defined.contains(#[trigger] refs[i]) by {
            if i < refs.len() - 1 {
                assert(refs.drop_last()[i] == refs[i]);
            }
        }
    }
}

proof fn lemma_none_missing_in(ls: Seq<(Seq<char>, LoggerModel)>, defined: Seq<Seq<char>>)
    requires
        first_missing_in(ls, defined) is None,
    ensures
        forall|i: int, a: Seq<char>|
            0 <= i < ls.len() && #[trigger] ls[i].1.appenders.contains(a) ==> defined.contains(a),
    decreases ls.len(),
{
    if ls.len() > 0 {
        lemma_none_missing_in(ls.drop_last(), defined);
        lemma_none_missing(ls.last().1.appenders, defined);
        assert forall|i: int, a: Seq<char>|
            0 <= i < ls.len() && #[trigger] ls[i].1.appenders.contains(a) implies defined.contains(a) by {
            if i < ls.len() - 1 {
                assert(ls.drop_last()[i] == ls[i]);
            } else {
                let k = choose|k: int| 0 <= k < ls[i].1.appenders.len() && ls[i].1.appenders[k] == a;
                assert(ls.last().1.appenders[k] == a);
            }
        }
    }
}

/// Every appender named by the root or by any logger of a topology is one
/// of its built appenders: no reference is left dangling.
pub proof fn lemma_no_dangling_references(t: &Topology)
    requires
        t.wf(),
    ensures
        forall|a: Seq<char>| #[trigger] t.config().root.appenders.contains(a)
            ==> appender_names(t.config()).contains(a),
        forall|i: int, a: Seq<char>|
            0 <= i < t.config().loggers.len() && #[trigger] t.config().loggers[i].1.appenders.contains(a)
                ==> appender_names(t.config()).contains(a),
{
    let c = t.config();
    lemma_none_missing(c.root.appenders, appender_names(c));
    lemma_none_missing_in(c.loggers, appender_names(c));
    assert forall|a: Seq<char>| #[trigger] c.root.appenders.contains(a) implies appender_names(c).contains(a) by {
        let k = choose|k: int| 0 <= k < c.root.appenders.len() && c.root.appenders[k] == a;
    }
}

/// Two lookups for the same name on the same configuration agree: the two
/// levels are equal and the two appender lists hold the same appenders.
pub proof fn lemma_lookups_agree(
    c: ConfigModel,
    n: Seq<u8>,
    first_level: LevelFilter,
    second_level: LevelFilter,
    first: Seq<Seq<char>>,
    second: Seq<Seq<char>>,
)
    requires
        first_level == effective_level(c, n),
        second_level == effective_level(c, n),
        forall|a: Seq<char>| #[trigger] first.contains(a) <==> receives(c, n, a),
        forall|a: Seq<char>| #[trigger] second.contains(a) <==> receives(c, n, a),
    ensures
        first_level == second_level,
        first.to_set() == second.to_set(),
{
    assert(first.to_set() =~= second.to_set());
}

proof fn lemma_fault_found(
    apps: Seq<(Seq<char>, AppenderModel)>,
    ak: Set<Seq<char>>,
    ek: Set<Seq<char>>,
    i: int,
)
    requires
        0 <= i < apps.len(),
        appender_fault(apps[i].1, ak, ek) is Some,
    ensures
        first_build_fault(apps, ak, ek) is Some,
    decreases apps.len(),
{
    if i < apps.len() - 1 {
        assert(apps.drop_last()[i] == apps[i]);
        lemma_fault_found(apps.drop_last(), ak, ek, i);
    }
}

/// A document whose configuration holds an appender of an unregistered kind
/// yields no topology at all: resolution fails.
pub proof fn lemma_unknown_kind_fails_build(v: Value, ak: Set<Seq<char>>, ek: Set<Seq<char>>, i: int)
    requires
        parsed(v) is Ok,
        0 <= i < parsed(v)->Ok_0.appenders.len(),
        !ak.contains(parsed(v)->Ok_0.appenders[i].1.kind),
    ensures
        resolved(v, ak, ek) is Err,
{
    lemma_fault_found(parsed(v)->Ok_0.appenders, ak, ek, i);
}

/// When the only appender that cannot be built has an unregistered kind,
/// resolution fails with exactly that unknown kind.
pub proof fn lemma_sole_unknown_kind(v: Value, ak: Set<Seq<char>>, ek: Set<Seq<char>>, i: int)
    requires
        parsed(v) is Ok,
        0 <= i < parsed(v)->Ok_0.appenders.len(),
        !ak.contains(parsed(v)->Ok_0.appenders[i].1.kind),
        forall|j: int| 0 <= j < parsed(v)->Ok_0.appenders.len() && j != i
            ==> appender_fault(#[trigger] parsed(v)->Ok_0.appenders[j].1, ak, ek) is None,
    ensures
        resolved(v, ak, ek) == Err::<ConfigModel, TopologyFault>(
            TopologyFault::UnknownKind(parsed(v)->Ok_0.appenders[i].1.kind),
        ),
{
    lemma_sole_fault(parsed(v)->Ok_0.appenders, ak, ek, i);
}

proof fn lemma_sole_fault(apps: Seq<(Seq<char>, AppenderModel)>, ak: Set<Seq<char>>, ek: Set<Seq<char>>, i: int)
    requires
        0 <= i < apps.len(),
        forall|j: int| 0 <= j < apps.len() && j != i ==> appender_fault(#[trigger] apps[j].1, ak, ek) is None,
    ensures
        first_build_fault(apps, ak, ek) == appender_fault(apps[i].1, ak, ek),
    decreases apps.len(),
{
    let d = apps.drop_last();
    if i < apps.len() - 1 {
        assert forall|j: int| 0 <= j < d.len() && j != i implies appender_fault(#[trigger] d[j].1, ak, ek) is None by {
            assert(d[j] == apps[j]);
        }
        assert(d[i] == apps[i]);
        lemma_sole_fault(d, ak, ek, i);
        assert(apps.last() == apps[apps.len() - 1]);
    } else {
        lemma_no_fault(d, ak, ek, apps);
    }
}

proof fn lemma_no_fault(d: Seq<(Seq<char>, AppenderModel)>, ak: Set<Seq<char>>, ek: Set<Seq<char>>, apps: Seq<(Seq<char>, AppenderModel)>)
    requires
        d.len() <= apps.len(),
        forall|j: int| 0 <= j < d.len() ==> d[j] == apps[j],
        forall|j: int| 0 <= j < d.len() ==> appender_fault(#[trigger] apps[j].1, ak, ek) is None,
    ensures
        first_build_fault(d, ak, ek) is None,
    decreases d.len(),
{
    if d.len() > 0 {
        lemma_no_fault(d.drop_last(), ak, ek, apps);
        assert(d.last() == apps[d.len() - 1]);
    }
}

proof fn lemma_build_fault_persists(
    apps: Seq<(Seq<char>, AppenderModel)>,
    ak: Set<Seq<char>>,
    ek: Set<Seq<char>>,
    k: int,
)
    requires
        0 <= k <= apps.len(),
        first_build_fault(apps.subrange(0, k), ak, ek) is Some,
    ensures
        first_build_fault(apps, ak, ek) == first_build_fault(apps.subrange(0, k), ak, ek),
    decreases apps.len() - k,
{
    if k < apps.len() {
        assert(apps.subrange(0, k + 1).drop_last() =~= apps.subrange(0, k));
        lemma_build_fault_persists(apps, ak, ek, k + 1);
    } else {
        assert(apps.subrange(0, k) =~= apps);
    }
}

} // verus!

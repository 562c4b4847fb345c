use vstd::prelude::*;
use crate::config::names_view;

verus! {

/// The two families of components that configurations build.
#[derive(Clone, Copy, Debug, PartialEq, Eq, Structural)]
pub enum Category {
    Appender,
    Encoder,
}

/// Why a component could not be built.
#[derive(Debug, PartialEq, Eq)]
pub enum BuildError {
    /// No factory is registered for this kind in the requested category.
    UnknownKind(String),
    /// The settings do not have the shape the factory expects; names the field.
    InvalidConfig(String),
    /// Acquiring the component's resource failed.
    Io(String),
}

/// The set of component kinds that can be built, per category. It holds kind
/// names only; whoever makes the components keeps its own factory per kind.
/// Registering a kind that is already present changes nothing here.
pub struct Registry {
    appender_kinds: Vec<String>,
    encoder_kinds: Vec<String>,
}

impl Registry {
    /// The kinds registered in `cat`.
    pub closed spec fn kinds(&self, cat: Category) -> Set<Seq<char>> {
        match cat {
            Category::Appender => names_view(self.appender_kinds@).to_set(),
            Category::Encoder => names_view(self.encoder_kinds@).to_set(),
        }
    }

    /// A registry that knows no kind.
    pub fn new() -> (r: Registry)
        ensures
            r.kinds(Category::Appender) == Set::<Seq<char>>::empty(),
            r.kinds(Category::Encoder) == Set::<Seq<char>>::empty(),
    {
        let r = Registry { appender_kinds: Vec::new(), encoder_kinds: Vec::new() };
        proof {
            assert(names_view(r.appender_kinds@).to_set() =~= Set::<Seq<char>>::empty());
            assert(names_view(r.encoder_kinds@).to_set() =~= Set::<Seq<char>>::empty());
        }
        r
    }

    /// Makes `kind` buildable in `cat`.
    pub fn register(&mut self, cat: Category, kind: String)
        ensures
            final(self).kinds(cat) == old(self).kinds(cat).insert(kind@),
            forall|c: Category| c != cat ==> final(self).kinds(c) == old(self).kinds(c),
    {
        let ghost k = kind@;
        match cat {
            Category::Appender => {
                let ghost before = self.appender_kinds@;
                self.appender_kinds.push(kind);
                proof {
                    assert(names_view(self.appender_kinds@) =~= names_view(before).push(k));
                    names_view(before).lemma_push_to_set_commute(k);
                }
            },
            Category::Encoder => {
                let ghost before = self.encoder_kinds@;
                self.encoder_kinds.push(kind);
                proof {
                    assert(names_view(self.encoder_kinds@) =~= names_view(before).push(k));
                    names_view(before).lemma_push_to_set_commute(k);
                }
            },
        }
    }

    /// Whether `kind` is registered in `cat`.
    pub fn has_kind(&self, cat: Category, kind: &String) -> (r: bool)
        ensures
            r == self.kinds(cat).contains(kind@),
    {
        let v = match cat {
            Category::Appender => &self.appender_kinds,
            Category::Encoder => &self.encoder_kinds,
        };
        let mut i: usize = 0;
        while i < v.len()
            invariant
                names_view(v@).to_set() == self.kinds(cat),
                0 <= i <= v@.len(),
                forall|j: int| 0 <= j < i ==> v@[j]@ != kind@,
            decreases v@.len() - i,
        {
            if v[i] == *kind {
                proof {
                    assert(names_view(v@)[i as int] == kind@);
                    assert(names_view(v@).to_set().contains(kind@));
                }
                return true;
            }
            i = i + 1;
        }
        proof {
            if names_view(v@).to_set().contains(kind@) {
                let j = choose|j: int| 0 <= j < v@.len() && names_view(v@)[j] == kind@;
                assert(v@[j]@ == kind@);
            }
        }
        false
    }

    /// Succeeds exactly when `kind` can be built in `cat`.
    pub fn check(&self, cat: Category, kind: &String) -> (r: Result<(), BuildError>)
        ensures
            r is Ok <==> self.kinds(cat).contains(kind@),
            match r {
                Err(BuildError::UnknownKind(k)) => k@ == kind@,
                Err(_) => false,
                Ok(_) => true,
            },
    {
        if self.has_kind(cat, kind) {
            Ok(())
        } else {
            Err(BuildError::UnknownKind(kind.clone()))
        }
    }
}

} // verus!

use vstd::prelude::*;
use vstd::string::StringSliceAdditionalSpecFns;

verus! {

/// A severity threshold. `Off` lets nothing through, `Trace` everything.
#[derive(Clone, Copy, Debug, PartialEq, Eq, Structural)]
pub enum LevelFilter {
    Off,
    Error,
    Warn,
    Info,
    Debug,
    Trace,
}

/// The rank of a threshold: a higher rank admits more records.
pub open spec fn rank(l: LevelFilter) -> nat {
    match l {
        LevelFilter::Off => 0,
        LevelFilter::Error => 1,
        LevelFilter::Warn => 2,
        LevelFilter::Info => 3,
        LevelFilter::Debug => 4,
        LevelFilter::Trace => 5,
    }
}

/// ASCII lower-casing of one byte.
pub open spec fn lower(b: u8) -> u8 {
    if 65 <= b && b <= 90 { (b + 32) as u8 } else { b }
}

/// `a` and `b` are equal ignoring ASCII case.
pub open spec fn eq_ignore_case(a: Seq<u8>, b: Seq<u8>) -> bool {
    a.len() == b.len() && forall|i: int| 0 <= i < a.len() ==> lower(a[i]) == lower(b[i])
}

/// The threshold a level name denotes, ignoring ASCII case.
pub open spec fn level_named(s: Seq<u8>) -> Option<LevelFilter> {
    if eq_ignore_case(s, seq![111u8, 102, 102]) {
        Some(LevelFilter::Off)
    } else if eq_ignore_case(s, seq![101u8, 114, 114, 111, 114]) {
        Some(LevelFilter::Error)
    } else if eq_ignore_case(s, seq![119u8, 97, 114, 110]) {
        Some(LevelFilter::Warn)
    } else if eq_ignore_case(s, seq![105u8, 110, 102, 111]) {
        Some(LevelFilter::Info)
    } else if eq_ignore_case(s, seq![100u8, 101, 98, 117, 103]) {
        Some(LevelFilter::Debug)
    } else if eq_ignore_case(s, seq![116u8, 114, 97, 99, 101]) {
        Some(LevelFilter::Trace)
    } else {
        None
    }
}

fn lower_byte(b: u8) -> (r: u8)
    ensures
        r == lower(b),
{
    if 65 <= b && b <= 90 { b + 32 } else { b }
}

fn bytes_eq_ignore_case(a: &[u8], b: &[u8]) -> (r: bool)
    ensures
        r == eq_ignore_case(a@, b@),
{
    if a.len() != b.len() {
        return false;
    }
    let mut i: usize = 0;
    while i < a.len()
        invariant
            a@.len() == b@.len(),
            0 <= i <= a@.len(),
            forall|j: int| 0 <= j < i ==> lower(a@[j]) == lower(b@[j]),
        decreases a@.len() - i,
    {
        if lower_byte(a[i]) != lower_byte(b[i]) {
            return false;
        }
        i = i + 1;
    }
    true
}

impl LevelFilter {
    /// Whether a record at `level` passes this threshold.
    pub fn enabled(self, level: LevelFilter) -> (r: bool)
        ensures
            r == (rank(level) <= rank(self)),
    {
        self.rank_of() >= level.rank_of()
    }

    fn rank_of(self) -> (r: u8)
        ensures
            r as nat == rank(self),
    {
        match self {
            LevelFilter::Off => 0,
            LevelFilter::Error => 1,
            LevelFilter::Warn => 2,
            LevelFilter::Info => 3,
            LevelFilter::Debug => 4,
            LevelFilter::Trace => 5,
        }
    }

    /// Reads a level name such as `"warn"` or `"INFO"`.
    pub fn from_name(s: &str) -> (r: Option<LevelFilter>)
        ensures
            r == level_named(s.spec_bytes()),
    {
        let b = s.as_bytes();
        if bytes_eq_ignore_case(b, &[111u8, 102, 102]) {
            Some(LevelFilter::Off)
        } else if bytes_eq_ignore_case(b, &[101u8, 114, 114, 111, 114]) {
            Some(LevelFilter::Error)
        } else if bytes_eq_ignore_case(b, &[119u8, 97, 114, 110]) {
            Some(LevelFilter::Warn)
        } else if bytes_eq_ignore_case(b, &[105u8, 110, 102, 111]) {
            Some(LevelFilter::Info)
        } else if bytes_eq_ignore_case(b, &[100u8, 101, 98, 117, 103]) {
            Some(LevelFilter::Debug)
        } else if bytes_eq_ignore_case(b, &[116u8, 114, 97, 99, 101]) {
            Some(LevelFilter::Trace)
        } else {
            None
        }
    }

    /// The canonical lower-case name of this threshold.
    pub fn name(self) -> (r: &'static str)
        ensures
            level_named(r.spec_bytes()) == Some(self),
    {
        broadcast use vstd::string::is_ascii_spec_bytes;

        match self {
            LevelFilter::Off => {
                proof {
                    reveal_strlit("off");
                    assert(vstd::string::is_ascii("off"));
                    assert("off".spec_bytes() =~= seq![111u8, 102, 102]);
                }
                "off"
            },
            LevelFilter::Error => {
                proof {
                    reveal_strlit("error");
                    assert(vstd::string::is_ascii("error"));
                    assert("error".spec_bytes() =~= seq![101u8, 114, 114, 111, 114]);
                }
                "error"
            },
            LevelFilter::Warn => {
                proof {
                    reveal_strlit("warn");
                    assert(vstd::string::is_ascii("warn"));
                    assert("warn".spec_bytes() =~= seq![119u8, 97, 114, 110]);
                }
                "warn"
            },
            LevelFilter::Info => {
                proof {
                    reveal_strlit("info");
                    assert(vstd::string::is_ascii("info"));
                    assert("info".spec_bytes() =~= seq![105u8, 110, 102, 111]);
                }
                "info"
            },
            LevelFilter::Debug => {
                proof {
                    reveal_strlit("debug");
                    assert(vstd::string::is_ascii("debug"));
                    assert("debug".spec_bytes() =~= seq![100u8, 101, 98, 117, 103]);
                }
                "debug"
            },
            LevelFilter::Trace => {
                proof {
                    reveal_strlit("trace");
                    assert(vstd::string::is_ascii("trace"));
                    assert("trace".spec_bytes() =~= seq![116u8, 114, 97, 99, 101]);
                }
                "trace"
            },
        }
    }
}

} // verus!

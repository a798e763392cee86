//! The command line of the benchmark suite: what is measured, on which grid.
use vstd::prelude::*;

use crate::float_text::{float_text, is_float};
use crate::text::{
    append, chars_of, copy_text, is_text, lower, number_text, numeral, parse_number, parsed, parts,
    replace_each, replaced, split, split_at_each, text_of, to_lower, trim, trimmed,
};

verus! {

/// A benchmarked scheme.
#[derive(Clone, Copy, Debug, PartialEq, Eq, Structural)]
pub enum Scheme {
    UpSpa,
    PasTaU,
    AugSso,
    UpSpaQuorum,
}

/// The name of a scheme.
pub open spec fn scheme_name(s: Scheme) -> Seq<char> {
    match s {
        Scheme::UpSpa => "upspa"@,
        Scheme::PasTaU => "pastau"@,
        Scheme::AugSso => "augsso"@,
        Scheme::UpSpaQuorum => "upspa_quorum"@,
    }
}

impl Scheme {
    /// The name of the scheme.
    pub fn name(self) -> (r: &'static str)
        ensures
            r@ == scheme_name(self),
    {
        match self {
            Scheme::UpSpa => "upspa",
            Scheme::PasTaU => "pastau",
            Scheme::AugSso => "augsso",
            Scheme::UpSpaQuorum => "upspa_quorum",
        }
    }
}

/// All schemes.
pub open spec fn all_schemes() -> Seq<Scheme> {
    seq![Scheme::UpSpa, Scheme::PasTaU, Scheme::AugSso, Scheme::UpSpaQuorum]
}

fn every_scheme() -> (r: Vec<Scheme>)
    ensures
        r@ == all_schemes(),
{
    let r = vec![Scheme::UpSpa, Scheme::PasTaU, Scheme::AugSso, Scheme::UpSpaQuorum];
    assert(r@ =~= all_schemes());
    r
}

/// The scheme that a lower-case name stands for.
pub open spec fn scheme_named(s: Seq<char>) -> Option<Scheme> {
    let n = replaced(s, '-', '_');
    if n == "upspa"@ {
        Some(Scheme::UpSpa)
    } else if n == "pastau"@ || n == "pas_ta_u"@ {
        Some(Scheme::PasTaU)
    } else if n == "augsso"@ {
        Some(Scheme::AugSso)
    } else if n == "quorum"@ || n == "upspa_quorum"@ || n == "upspa_abd"@ {
        Some(Scheme::UpSpaQuorum)
    } else {
        None
    }
}

fn find_scheme(v: &[char]) -> (r: Option<Scheme>)
    ensures
        r == scheme_named(v@),
{
    let n = replace_each(v, '-', '_');
    let s = n.as_slice();
    if is_text(s, "upspa") {
        Some(Scheme::UpSpa)
    } else if is_text(s, "pastau") || is_text(s, "pas_ta_u") {
        Some(Scheme::PasTaU)
    } else if is_text(s, "augsso") {
        Some(Scheme::AugSso)
    } else if is_text(s, "quorum") || is_text(s, "upspa_quorum") || is_text(s, "upspa_abd") {
        Some(Scheme::UpSpaQuorum)
    } else {
        None
    }
}

/// A kind of measurement.
#[derive(Clone, Copy, Debug, PartialEq, Eq, Structural)]
pub enum Kind {
    Proto,
    Prim,
    Sp,
    Net,
    Full,
    FullNoNet,
    FullNet,
    QuorumOverhead,
}

/// The name of a kind.
pub open spec fn kind_name(k: Kind) -> Seq<char> {
    match k {
        Kind::Proto => "proto"@,
        Kind::Prim => "prim"@,
        Kind::Sp => "sp"@,
        Kind::Net => "net"@,
        Kind::Full => "full"@,
        Kind::FullNoNet => "full_no_net"@,
        Kind::FullNet => "full_net"@,
        Kind::QuorumOverhead => "quorum_overhead"@,
    }
}

impl Kind {
    /// The name of the kind.
    pub fn name(self) -> (r: &'static str)
        ensures
            r@ == kind_name(self),
    {
        match self {
            Kind::Proto => "proto",
            Kind::Prim => "prim",
            Kind::Sp => "sp",
            Kind::Net => "net",
            Kind::Full => "full",
            Kind::FullNoNet => "full_no_net",
            Kind::FullNet => "full_net",
            Kind::QuorumOverhead => "quorum_overhead",
        }
    }
}

/// A set of kinds.
#[derive(Clone, Copy, Debug, PartialEq, Eq, Structural)]
pub struct Kinds {
    pub proto: bool,
    pub prim: bool,
    pub sp: bool,
    pub net: bool,
    pub full: bool,
    pub full_no_net: bool,
    pub full_net: bool,
    pub quorum_overhead: bool,
}

impl Kinds {
    /// Whether a kind is in the set.
    pub open spec fn has(self, k: Kind) -> bool {
        match k {
            Kind::Proto => self.proto,
            Kind::Prim => self.prim,
            Kind::Sp => self.sp,
            Kind::Net => self.net,
            Kind::Full => self.full,
            Kind::FullNoNet => self.full_no_net,
            Kind::FullNet => self.full_net,
            Kind::QuorumOverhead => self.quorum_overhead,
        }
    }

    /// The empty set.
    pub open spec fn empty() -> Kinds {
        Kinds {
            proto: false,
            prim: false,
            sp: false,
            net: false,
            full: false,
            full_no_net: false,
            full_net: false,
            quorum_overhead: false,
        }
    }

    /// The set of all kinds.
    pub open spec fn all() -> Kinds {
        Kinds {
            proto: true,
            prim: true,
            sp: true,
            net: true,
            full: true,
            full_no_net: true,
            full_net: true,
            quorum_overhead: true,
        }
    }

    /// The set with a kind put in.
    pub open spec fn plus(self, k: Kind) -> Kinds {
        match k {
            Kind::Proto => Kinds { proto: true, ..self },
            Kind::Prim => Kinds { prim: true, ..self },
            Kind::Sp => Kinds { sp: true, ..self },
            Kind::Net => Kinds { net: true, ..self },
            Kind::Full => Kinds { full: true, ..self },
            Kind::FullNoNet => Kinds { full_no_net: true, ..self },
            Kind::FullNet => Kinds { full_net: true, ..self },
            Kind::QuorumOverhead => Kinds { quorum_overhead: true, ..self },
        }
    }

    /// Whether a kind is in the set.
    pub fn contains(&self, k: Kind) -> (r: bool)
        ensures
            r == self.has(k),
    {
        match k {
            Kind::Proto => self.proto,
            Kind::Prim => self.prim,
            Kind::Sp => self.sp,
            Kind::Net => self.net,
            Kind::Full => self.full,
            Kind::FullNoNet => self.full_no_net,
            Kind::FullNet => self.full_net,
            Kind::QuorumOverhead => self.quorum_overhead,
        }
    }

    /// The set of all kinds.
    pub fn every() -> (r: Kinds)
        ensures
            r == Kinds::all(),
    {
        Kinds {
            proto: true,
            prim: true,
            sp: true,
            net: true,
            full: true,
            full_no_net: true,
            full_net: true,
            quorum_overhead: true,
        }
    }

    /// The empty set.
    pub fn none() -> (r: Kinds)
        ensures
            r == Kinds::empty(),
    {
        Kinds {
            proto: false,
            prim: false,
            sp: false,
            net: false,
            full: false,
            full_no_net: false,
            full_net: false,
            quorum_overhead: false,
        }
    }

    /// The set with a kind put in.
    pub fn with(self, k: Kind) -> (r: Kinds)
        ensures
            r == self.plus(k),
    {
        match k {
            Kind::Proto => Kinds { proto: true, ..self },
            Kind::Prim => Kinds { prim: true, ..self },
            Kind::Sp => Kinds { sp: true, ..self },
            Kind::Net => Kinds { net: true, ..self },
            Kind::Full => Kinds { full: true, ..self },
            Kind::FullNoNet => Kinds { full_no_net: true, ..self },
            Kind::FullNet => Kinds { full_net: true, ..self },
            Kind::QuorumOverhead => Kinds { quorum_overhead: true, ..self },
        }
    }
}

/// The kinds of the baseline schemes, in their order.
pub open spec fn baseline_kinds() -> Seq<Kind> {
    seq![Kind::Proto, Kind::Prim, Kind::Sp, Kind::Net, Kind::Full]
}

/// The kinds of the quorum scheme, in their order.
pub open spec fn quorum_kinds() -> Seq<Kind> {
    seq![Kind::FullNoNet, Kind::FullNet, Kind::QuorumOverhead]
}

/// The kinds that a scheme supports.
pub open spec fn supported_kinds(s: Scheme) -> Seq<Kind> {
    if s == Scheme::UpSpaQuorum {
        quorum_kinds()
    } else {
        baseline_kinds()
    }
}

/// The kinds that a scheme supports.
pub fn kinds_of(s: Scheme) -> (r: Vec<Kind>)
    ensures
        r@ == supported_kinds(s),
{
    if s == Scheme::UpSpaQuorum {
        let r = vec![Kind::FullNoNet, Kind::FullNet, Kind::QuorumOverhead];
        assert(r@ =~= quorum_kinds());
        r
    } else {
        let r = vec![Kind::Proto, Kind::Prim, Kind::Sp, Kind::Net, Kind::Full];
        assert(r@ =~= baseline_kinds());
        r
    }
}

/// The kind that a name in lower case and with underscores stands for.
pub open spec fn kind_named(n: Seq<char>) -> Option<Kind> {
    if n == "quorum"@ {
        Some(Kind::QuorumOverhead)
    } else if n == "proto"@ {
        Some(Kind::Proto)
    } else if n == "prim"@ {
        Some(Kind::Prim)
    } else if n == "sp"@ {
        Some(Kind::Sp)
    } else if n == "net"@ {
        Some(Kind::Net)
    } else if n == "full"@ {
        Some(Kind::Full)
    } else if n == "full_no_net"@ {
        Some(Kind::FullNoNet)
    } else if n == "full_net"@ {
        Some(Kind::FullNet)
    } else if n == "quorum_overhead"@ {
        Some(Kind::QuorumOverhead)
    } else {
        None
    }
}

fn find_kind(s: &[char]) -> (r: Option<Kind>)
    ensures
        r == kind_named(s@),
{
    if is_text(s, "quorum") {
        Some(Kind::QuorumOverhead)
    } else if is_text(s, "proto") {
        Some(Kind::Proto)
    } else if is_text(s, "prim") {
        Some(Kind::Prim)
    } else if is_text(s, "sp") {
        Some(Kind::Sp)
    } else if is_text(s, "net") {
        Some(Kind::Net)
    } else if is_text(s, "full") {
        Some(Kind::Full)
    } else if is_text(s, "full_no_net") {
        Some(Kind::FullNoNet)
    } else if is_text(s, "full_net") {
        Some(Kind::FullNet)
    } else if is_text(s, "quorum_overhead") {
        Some(Kind::QuorumOverhead)
    } else {
        None
    }
}

/// How many providers are unavailable.
#[derive(Clone, Copy, Debug, PartialEq, Eq, Structural)]
pub enum Offline {
    Max,
    Nobody,
    Count(usize),
}

/// The text that stands for a number of unavailable providers.
pub open spec fn offline_text(o: Offline) -> Seq<char> {
    match o {
        Offline::Max => "max"@,
        Offline::Nobody => "none"@,
        Offline::Count(n) => numeral(n as nat),
    }
}

impl Offline {
    /// The text for a command line.
    pub fn as_arg(&self) -> (r: String)
        ensures
            r@ == offline_text(*self),
    {
        match self {
            Offline::Max => copy_text("max"),
            Offline::Nobody => copy_text("none"),
            Offline::Count(n) => number_text(*n as u128),
        }
    }
}

/// Three texts, one after the other.
fn say3(a: &str, b: &str, c: &str) -> (r: String)
    ensures
        r@ == a@ + b@ + c@,
{
    let mut r = copy_text(a);
    append(&mut r, b);
    append(&mut r, c);
    r
}

/// The number of unavailable providers that a text stands for.
pub open spec fn offline_of(s: Seq<char>) -> Option<Offline> {
    let l = lower(s);
    if l == "max"@ {
        Some(Offline::Max)
    } else if l == "none"@ {
        Some(Offline::Nobody)
    } else {
        match parsed(l, usize::MAX as nat) {
            Some(n) => Some(Offline::Count(n as usize)),
            None => None,
        }
    }
}

/// Reads a number of unavailable providers.
pub fn parse_offline(text: &str) -> (r: Result<Offline, String>)
    ensures
        match r {
            Ok(o) => offline_of(text@) == Some(o),
            Err(e) => offline_of(text@) is None && e@
                == "--offline must be max, none, or a nonnegative integer"@,
        },
{
    let l = to_lower(chars_of(text).as_slice());
    if is_text(l.as_slice(), "max") {
        return Ok(Offline::Max);
    }
    if is_text(l.as_slice(), "none") {
        return Ok(Offline::Nobody);
    }
    match parse_number(l.as_slice(), usize::MAX as u64) {
        Some(n) => Ok(Offline::Count(n as usize)),
        None => Err(copy_text("--offline must be max, none, or a nonnegative integer")),
    }
}

/// The message for a value that cannot be read.
pub open spec fn invalid_value(text: Seq<char>, name: Seq<char>) -> Seq<char> {
    "invalid value '"@ + text + "' for "@ + name
}

fn say_invalid(text: &str, name: &str) -> (r: String)
    ensures
        r@ == invalid_value(text@, name@),
{
    let mut r = say3("invalid value '", text, "' for ");
    append(&mut r, name);
    r
}

/// Reads a number not above `max`.
pub fn parse_value(text: &str, name: &str, max: u64) -> (r: Result<u64, String>)
    ensures
        match r {
            Ok(n) => parsed(text@, max as nat) == Some(n as nat),
            Err(e) => parsed(text@, max as nat) is None && e@ == invalid_value(text@, name@),
        },
{
    match parse_number(chars_of(text).as_slice(), max) {
        Some(n) => Ok(n),
        None => Err(say_invalid(text, name)),
    }
}

/// Reads the text of a floating-point number.
pub fn parse_float_text(text: &str, name: &str) -> (r: Result<String, String>)
    ensures
        match r {
            Ok(t) => is_float(text@) && t@ == text@,
            Err(e) => !is_float(text@) && e@ == invalid_value(text@, name@),
        },
{
    if float_text(chars_of(text).as_slice()) {
        Ok(copy_text(text))
    } else {
        Err(say_invalid(text, name))
    }
}

/// The numbers in the first `k` parts of a list, or the message for the first part that
/// is not a number. Blank parts are passed over.
pub open spec fn listed(
    p: Seq<Seq<char>>,
    max: nat,
    name: Seq<char>,
    k: int,
) -> Result<Seq<nat>, Seq<char>>
    decreases k,
{
    if k <= 0 {
        Ok(Seq::empty())
    } else {
        match listed(p, max, name, k - 1) {
            Err(e) => Err(e),
            Ok(v) => {
                let part = trim(p[k - 1]);
                if part.len() == 0 {
                    Ok(v)
                } else {
                    match parsed(part, max) {
                        Some(n) => Ok(v.push(n)),
                        None => Err(invalid_value(part, name)),
                    }
                }
            },
        }
    }
}

/// The numbers of a list, of which there must be one.
pub open spec fn list_of(text: Seq<char>, max: nat, name: Seq<char>) -> Result<
    Seq<nat>,
    Seq<char>,
> {
    let p = split(text, ',');
    match listed(p, max, name, p.len() as int) {
        Err(e) => Err(e),
        Ok(v) => if v.len() == 0 {
            Err(name + " requires at least one value"@)
        } else {
            Ok(v)
        },
    }
}

proof fn lemma_listed_error(p: Seq<Seq<char>>, max: nat, name: Seq<char>, k: int, n: int)
    requires
        0 <= k <= n,
    ensures
        listed(p, max, name, k) matches Err(e) ==> listed(p, max, name, n) == Err::<
            Seq<nat>,
            Seq<char>,
        >(e),
    decreases n - k,
{
    if k < n {
        lemma_listed_error(p, max, name, k + 1, n);
    }
}

/// Numbers as naturals.
pub open spec fn nats(v: Seq<u64>) -> Seq<nat> {
    Seq::new(v.len(), |i: int| v[i] as nat)
}

/// The numbers of a list, which may be empty.
pub open spec fn numbers_of(text: Seq<char>, max: nat, name: Seq<char>) -> Result<
    Seq<nat>,
    Seq<char>,
> {
    let p = split(text, ',');
    listed(p, max, name, p.len() as int)
}

/// Reads a list of numbers not above `max`, which may be empty.
pub fn parse_numbers(text: &str, name: &str, max: u64) -> (r: Result<Vec<u64>, String>)
    ensures
        match r {
            Ok(v) => numbers_of(text@, max as nat, name@) == Ok::<Seq<nat>, Seq<char>>(nats(v@)),
            Err(e) => numbers_of(text@, max as nat, name@) == Err::<Seq<nat>, Seq<char>>(e@),
        },
        r matches Ok(v) ==> forall|i: int| 0 <= i < v@.len() ==> v@[i] <= max,
{
    let p = split_at_each(chars_of(text).as_slice(), ',');
    let ghost gp = split(text@, ',');
    let mut out: Vec<u64> = Vec::new();
    let mut k: usize = 0;
    assert(nats(out@) =~= Seq::<nat>::empty());
    while k < p.len()
        invariant
            k <= p@.len(),
            gp == parts(p@),
            gp == split(text@, ','),
            listed(gp, max as nat, name@, k as int) == Ok::<Seq<nat>, Seq<char>>(nats(out@)),
            forall|i: int| 0 <= i < out@.len() ==> out@[i] <= max,
        decreases p@.len() - k,
    {
        let part = trimmed(p[k].as_slice());
        proof {
            assert(gp[k as int] == p@[k as int]@);
            lemma_listed_error(gp, max as nat, name@, k + 1, gp.len() as int);
        }
        if part.len() > 0 {
            match parse_number(part.as_slice(), max) {
                Some(n) => {
                    let ghost before = out@;
                    out.push(n);
                    assert(nats(out@) =~= nats(before).push(n as nat));
                },
                None => {
                    return Err(say_invalid(text_of(part.as_slice()).as_str(), name));
                },
            }
        }
        k = k + 1;
    }
    Ok(out)
}

/// Reads a list of numbers not above `max`, of which there must be one.
pub fn parse_list(text: &str, name: &str, max: u64) -> (r: Result<Vec<u64>, String>)
    ensures
        match r {
            Ok(v) => list_of(text@, max as nat, name@) == Ok::<Seq<nat>, Seq<char>>(nats(v@)),
            Err(e) => list_of(text@, max as nat, name@) == Err::<Seq<nat>, Seq<char>>(e@),
        },
        r matches Ok(v) ==> forall|i: int| 0 <= i < v@.len() ==> v@[i] <= max,
{
    let out = match parse_numbers(text, name, max) {
        Ok(out) => out,
        Err(e) => {
            return Err(e);
        },
    };
    assert(nats(out@).len() == out@.len());
    if out.len() == 0 {
        let mut e = copy_text(name);
        append(&mut e, " requires at least one value");
        return Err(e);
    }
    Ok(out)
}

/// The schemes that the parts from place `k` on add to `acc`. The word for all ends the
/// list; a scheme named twice counts once.
pub open spec fn schemes_from(p: Seq<Seq<char>>, k: int, acc: Seq<Scheme>) -> Result<
    Seq<Scheme>,
    Seq<char>,
>
    decreases p.len() - k,
{
    if k >= p.len() {
        if acc.len() == 0 {
            Err("--scheme requires at least one value"@)
        } else {
            Ok(acc)
        }
    } else {
        let name = lower(trim(p[k]));
        if name == "all"@ {
            Ok(all_schemes())
        } else {
            match scheme_named(name) {
                None => Err("unknown scheme '"@ + name + "'"@),
                Some(s) => schemes_from(
                    p,
                    k + 1,
                    if acc.contains(s) {
                        acc
                    } else {
                        acc.push(s)
                    },
                ),
            }
        }
    }
}

fn has_scheme(v: &Vec<Scheme>, s: Scheme) -> (r: bool)
    ensures
        r == v@.contains(s),
{
    let mut i: usize = 0;
    while i < v.len()
        invariant
            i <= v@.len(),
            forall|j: int| 0 <= j < i ==> v@[j] != s,
        decreases v@.len() - i,
    {
        if v[i] == s {
            return true;
        }
        i = i + 1;
    }
    false
}

/// Reads a list of schemes.
pub fn parse_schemes(text: &str) -> (r: Result<Vec<Scheme>, String>)
    ensures
        match r {
            Ok(v) => schemes_from(split(text@, ','), 0, Seq::empty()) == Ok::<
                Seq<Scheme>,
                Seq<char>,
            >(v@),
            Err(e) => schemes_from(split(text@, ','), 0, Seq::empty()) == Err::<
                Seq<Scheme>,
                Seq<char>,
            >(e@),
        },
{
    let p = split_at_each(chars_of(text).as_slice(), ',');
    let ghost gp = split(text@, ',');
    let mut out: Vec<Scheme> = Vec::new();
    let mut k: usize = 0;
    assert(out@ =~= Seq::<Scheme>::empty());
    while k < p.len()
        invariant
            k <= p@.len(),
            gp == parts(p@),
            gp == split(text@, ','),
            schemes_from(gp, k as int, out@) == schemes_from(gp, 0, Seq::empty()),
        decreases p@.len() - k,
    {
        assert(gp[k as int] == p@[k as int]@);
        let name = to_lower(trimmed(p[k].as_slice()).as_slice());
        if is_text(name.as_slice(), "all") {
            return Ok(every_scheme());
        }
        match find_scheme(name.as_slice()) {
            Some(s) => {
                if !has_scheme(&out, s) {
                    out.push(s);
                }
            },
            None => {
                return Err(say3("unknown scheme '", text_of(name.as_slice()).as_str(), "'"));
            },
        }
        k = k + 1;
    }
    if out.len() == 0 {
        return Err(copy_text("--scheme requires at least one value"));
    }
    Ok(out)
}

/// The kinds that the parts from place `k` on add to `acc`.
pub open spec fn kinds_from(p: Seq<Seq<char>>, k: int, acc: Kinds) -> Result<Kinds, Seq<char>>
    decreases p.len() - k,
{
    if k >= p.len() {
        if acc == Kinds::empty() {
            Err("--kind requires at least one value"@)
        } else {
            Ok(acc)
        }
    } else {
        let raw = trim(p[k]);
        let name = replaced(lower(raw), '-', '_');
        if raw.len() == 0 {
            kinds_from(p, k + 1, acc)
        } else if name == "all"@ {
            Ok(Kinds::all())
        } else {
            match kind_named(name) {
                None => Err("unknown benchmark kind '"@ + raw + "'"@),
                Some(kind) => kinds_from(p, k + 1, acc.plus(kind)),
            }
        }
    }
}

/// Reads a list of kinds.
pub fn parse_kinds(text: &str) -> (r: Result<Kinds, String>)
    ensures
        match r {
            Ok(v) => kinds_from(split(text@, ','), 0, Kinds::empty()) == Ok::<Kinds, Seq<char>>(v),
            Err(e) => kinds_from(split(text@, ','), 0, Kinds::empty()) == Err::<Kinds, Seq<char>>(
                e@,
            ),
        },
{
    let p = split_at_each(chars_of(text).as_slice(), ',');
    let ghost gp = split(text@, ',');
    let mut out = Kinds::none();
    let mut k: usize = 0;
    while k < p.len()
        invariant
            k <= p@.len(),
            gp == parts(p@),
            gp == split(text@, ','),
            kinds_from(gp, k as int, out) == kinds_from(gp, 0, Kinds::empty()),
        decreases p@.len() - k,
    {
        assert(gp[k as int] == p@[k as int]@);
        let raw = trimmed(p[k].as_slice());
        if raw.len() > 0 {
            let small = to_lower(raw.as_slice());
            let name = replace_each(small.as_slice(), '-', '_');
            if is_text(name.as_slice(), "all") {
                return Ok(Kinds::every());
            }
            match find_kind(name.as_slice()) {
                Some(kind) => {
                    out = out.with(kind);
                },
                None => {
                    return Err(
                        say3("unknown benchmark kind '", text_of(raw.as_slice()).as_str(), "'"),
                    );
                },
            }
        }
        k = k + 1;
    }
    if out == Kinds::none() {
        return Err(copy_text("--kind requires at least one value"));
    }
    Ok(out)
}

} // verus!

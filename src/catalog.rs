use cairo_vm::types::builtin_name::BuiltinName;
use cairo_vm::types::layout_name::LayoutName;
use vstd::prelude::*;

verus! {

#[verifier::external_type_specification]
pub struct ExBuiltinName(BuiltinName);

#[verifier::external_type_specification]
pub struct ExLayoutName(LayoutName);

/// The position of each builtin in the enumeration, used to compare builtins.
pub open spec fn builtin_rank(b: BuiltinName) -> nat {
    match b {
        BuiltinName::output => 0,
        BuiltinName::range_check => 1,
        BuiltinName::pedersen => 2,
        BuiltinName::ecdsa => 3,
        BuiltinName::keccak => 4,
        BuiltinName::bitwise => 5,
        BuiltinName::ec_op => 6,
        BuiltinName::poseidon => 7,
        BuiltinName::segment_arena => 8,
        BuiltinName::range_check96 => 9,
        BuiltinName::add_mod => 10,
        BuiltinName::mul_mod => 11,
    }
}

/// The builtin that a name denotes, if any: the builtin's own name without suffix.
pub open spec fn builtin_named(s: Seq<char>) -> Option<BuiltinName> {
    if s == "output"@ {
        Some(BuiltinName::output)
    } else if s == "range_check"@ {
        Some(BuiltinName::range_check)
    } else if s == "pedersen"@ {
        Some(BuiltinName::pedersen)
    } else if s == "ecdsa"@ {
        Some(BuiltinName::ecdsa)
    } else if s == "keccak"@ {
        Some(BuiltinName::keccak)
    } else if s == "bitwise"@ {
        Some(BuiltinName::bitwise)
    } else if s == "ec_op"@ {
        Some(BuiltinName::ec_op)
    } else if s == "poseidon"@ {
        Some(BuiltinName::poseidon)
    } else if s == "segment_arena"@ {
        Some(BuiltinName::segment_arena)
    } else if s == "range_check96"@ {
        Some(BuiltinName::range_check96)
    } else if s == "add_mod"@ {
        Some(BuiltinName::add_mod)
    } else if s == "mul_mod"@ {
        Some(BuiltinName::mul_mod)
    } else {
        None
    }
}

/// The name of a builtin, without suffix.
pub open spec fn builtin_text(b: BuiltinName) -> Seq<char> {
    match b {
        BuiltinName::output => "output"@,
        BuiltinName::range_check => "range_check"@,
        BuiltinName::pedersen => "pedersen"@,
        BuiltinName::ecdsa => "ecdsa"@,
        BuiltinName::keccak => "keccak"@,
        BuiltinName::bitwise => "bitwise"@,
        BuiltinName::ec_op => "ec_op"@,
        BuiltinName::poseidon => "poseidon"@,
        BuiltinName::segment_arena => "segment_arena"@,
        BuiltinName::range_check96 => "range_check96"@,
        BuiltinName::add_mod => "add_mod"@,
        BuiltinName::mul_mod => "mul_mod"@,
    }
}

/// Relies on cairo-vm's `BuiltinName::from_str`: a match of the twelve builtin names.
pub assume_specification[ BuiltinName::from_str ](s: &str) -> (r: Option<BuiltinName>)
    ensures
        r == builtin_named(s@),
;

/// Relies on cairo-vm's `BuiltinName::to_str`: a match giving each builtin's name.
pub assume_specification[ BuiltinName::to_str ](b: BuiltinName) -> (r: &'static str)
    ensures
        r@ == builtin_text(b),
;

/// The texts held by a sequence of strings.
pub open spec fn texts(v: Seq<String>) -> Seq<Seq<char>> {
    v.map_values(|s: String| s@)
}

/// The builtins denoted by a list of names; names that denote no builtin are left out.
pub open spec fn required_builtins(names: Seq<Seq<char>>) -> Set<BuiltinName> {
    Set::new(|b: BuiltinName| exists|i: int| 0 <= i < names.len() && builtin_named(names[i]) == Some(b))
}

/// Whether a capacity list offers every builtin of a requirement.
pub open spec fn covers(capacity: Seq<BuiltinName>, req: Set<BuiltinName>) -> bool {
    forall|b: BuiltinName| req.contains(b) ==> capacity.contains(b)
}

/// A named execution layout: the builtins it offers and its cost.
pub struct LayoutSpec {
    pub layout: LayoutName,
    pub cost: u32,
    pub capacity: Vec<BuiltinName>,
}

/// A fixed table of layouts, with the entry to fall back on when none covers a requirement.
pub struct LayoutCatalog {
    pub entries: Vec<LayoutSpec>,
    pub fallback: usize,
}

impl LayoutCatalog {
    /// The fallback entry exists and offers every builtin that any entry offers.
    pub open spec fn wf(&self) -> bool {
        &&& self.fallback < self.entries@.len()
        &&& forall|i: int, b: BuiltinName|
            0 <= i < self.entries@.len() && #[trigger] self.entries@[i].capacity@.contains(b)
                ==> self.entries@[self.fallback as int].capacity@.contains(b)
    }

    /// Whether entry `i` covers the requirement.
    pub open spec fn qualifies(&self, i: int, req: Set<BuiltinName>) -> bool {
        0 <= i < self.entries@.len() && covers(self.entries@[i].capacity@, req)
    }

    /// Entry `i` is the cheapest entry covering the requirement, and the first such in the
    /// table among those of equal cost.
    pub open spec fn is_best(&self, i: int, req: Set<BuiltinName>) -> bool {
        &&& self.qualifies(i, req)
        &&& forall|j: int| #[trigger] self.qualifies(j, req) ==> self.entries@[i].cost <= self.entries@[j].cost
        &&& forall|j: int| 0 <= j < i && #[trigger] self.qualifies(j, req) ==> self.entries@[i].cost < self.entries@[j].cost
    }

    /// The entry chosen for a requirement: the best one, or the fallback where none covers it.
    pub open spec fn chosen(&self, i: int, req: Set<BuiltinName>) -> bool {
        if exists|j: int| self.qualifies(j, req) {
            self.is_best(i, req)
        } else {
            i == self.fallback
        }
    }

    /// The layout of the entry chosen for a requirement.
    pub open spec fn chosen_layout(&self, req: Set<BuiltinName>) -> LayoutName {
        self.entries@[choose|i: int| self.chosen(i, req)].layout
    }

    /// At most one entry is chosen for a requirement.
    pub proof fn lemma_chosen_unique(&self, i: int, j: int, req: Set<BuiltinName>)
        requires
            self.chosen(i, req),
            self.chosen(j, req),
        ensures
            i == j,
    {
        if exists|k: int| self.qualifies(k, req) {
            assert(self.qualifies(i, req) && self.qualifies(j, req));
            if i < j {
                assert(self.entries@[j].cost < self.entries@[i].cost);
            } else if j < i {
                assert(self.entries@[i].cost < self.entries@[j].cost);
            }
        }
    }
}

impl LayoutCatalog {
    /// The index of the entry chosen for a list of builtin names: the cheapest entry
    /// covering the builtins they denote, the first in the table among equal costs, or
    /// the fallback where no entry covers them.
    pub fn resolve_index(&self, builtins: &Vec<String>) -> (r: usize)
        requires
            self.wf(),
        ensures
            r < self.entries@.len(),
            self.chosen(r as int, required_builtins(texts(builtins@))),
    {
        let req = parse_builtins(builtins);
        let ghost rs = required_builtins(texts(builtins@));
        let mut best: Option<usize> = None;
        let mut i: usize = 0;
        while i < self.entries.len()
            invariant
                i <= self.entries@.len(),
                req@.to_set() == rs,
                match best {
                    None => forall|j: int| 0 <= j < i ==> !self.qualifies(j, rs),
                    Some(b) => b < i && self.qualifies(b as int, rs)
                        && (forall|j: int| 0 <= j < i && #[trigger] self.qualifies(j, rs)
                            ==> self.entries@[b as int].cost <= self.entries@[j].cost)
                        && (forall|j: int| 0 <= j < b && #[trigger] self.qualifies(j, rs)
                            ==> self.entries@[b as int].cost < self.entries@[j].cost),
                },
            decreases self.entries@.len() - i,
        {
            let entry = &self.entries[i];
            if offers_all(&entry.capacity, &req) {
                match best {
                    None => {
                        best = Some(i);
                    },
                    Some(b) => {
                        if entry.cost < self.entries[b].cost {
                            best = Some(i);
                        }
                    },
                }
            }
            i = i + 1;
        }
        match best {
            Some(b) => b,
            None => self.fallback,
        }
    }

    /// The layout chosen for a list of builtin names (see `resolve_index`).
    pub fn resolve(&self, builtins: &Vec<String>) -> (r: LayoutName)
        requires
            self.wf(),
        ensures
            r == self.chosen_layout(required_builtins(texts(builtins@))),
    {
        let i = self.resolve_index(builtins);
        proof {
            let req = required_builtins(texts(builtins@));
            let c = choose|c: int| self.chosen(c, req);
            self.lemma_chosen_unique(i as int, c, req);
        }
        self.entries[i].layout
    }

    /// A catalog over the given entries and fallback, or `None` where the fallback is out
    /// of range or does not offer every builtin that some entry offers.
    pub fn new(entries: Vec<LayoutSpec>, fallback: usize) -> (r: Option<LayoutCatalog>)
        ensures
            match r {
                Some(c) => c.entries@ == entries@ && c.fallback == fallback && c.wf(),
                None => !(LayoutCatalog { entries, fallback }).wf(),
            },
    {
        if fallback >= entries.len() {
            return None;
        }
        let mut i: usize = 0;
        while i < entries.len()
            invariant
                fallback < entries@.len(),
                i <= entries@.len(),
                forall|k: int, b: BuiltinName|
                    0 <= k < i && #[trigger] entries@[k].capacity@.contains(b)
                        ==> entries@[fallback as int].capacity@.contains(b),
            decreases entries@.len() - i,
        {
            if !offers_all(&entries[fallback].capacity, &entries[i].capacity) {
                proof {
                    let b = choose|b: BuiltinName| entries@[i as int].capacity@.to_set().contains(b)
                        && !entries@[fallback as int].capacity@.contains(b);
                    assert(entries@[i as int].capacity@.contains(b));
                }
                return None;
            }
            proof {
                assert forall|k: int, b: BuiltinName|
                    0 <= k < i + 1 && #[trigger] entries@[k].capacity@.contains(b)
                        implies entries@[fallback as int].capacity@.contains(b) by {
                    if k == i {
                        assert(entries@[k].capacity@.to_set().contains(b));
                    }
                }
            }
            i = i + 1;
        }
        Some(LayoutCatalog { entries, fallback })
    }

    /// The standard table: four layouts, with `starknet_with_keccak` as the fallback.
    pub fn standard() -> (r: LayoutCatalog)
        ensures
            r.wf(),
            r.entries@.len() == 4,
            r.fallback == 0,
            r.entries@[0].layout == LayoutName::starknet_with_keccak && r.entries@[0].cost == 15
                && r.entries@[0].capacity@ == seq![BuiltinName::pedersen, BuiltinName::range_check,
                BuiltinName::ecdsa, BuiltinName::bitwise, BuiltinName::ec_op, BuiltinName::keccak,
                BuiltinName::poseidon],
            r.entries@[1].layout == LayoutName::recursive && r.entries@[1].cost == 10
                && r.entries@[1].capacity@ == seq![BuiltinName::pedersen, BuiltinName::range_check,
                BuiltinName::bitwise],
            r.entries@[2].layout == LayoutName::starknet && r.entries@[2].cost == 10
                && r.entries@[2].capacity@ == seq![BuiltinName::pedersen, BuiltinName::range_check,
                BuiltinName::ecdsa, BuiltinName::bitwise, BuiltinName::ec_op, BuiltinName::poseidon],
            r.entries@[3].layout == LayoutName::recursive_with_poseidon && r.entries@[3].cost == 8
                && r.entries@[3].capacity@ == seq![BuiltinName::pedersen, BuiltinName::range_check,
                BuiltinName::bitwise, BuiltinName::poseidon],
    {
        let full = vec![BuiltinName::pedersen, BuiltinName::range_check, BuiltinName::ecdsa,
            BuiltinName::bitwise, BuiltinName::ec_op, BuiltinName::keccak, BuiltinName::poseidon];
        let recursive = vec![BuiltinName::pedersen, BuiltinName::range_check, BuiltinName::bitwise];
        let starknet = vec![BuiltinName::pedersen, BuiltinName::range_check, BuiltinName::ecdsa,
            BuiltinName::bitwise, BuiltinName::ec_op, BuiltinName::poseidon];
        let with_poseidon = vec![BuiltinName::pedersen, BuiltinName::range_check,
            BuiltinName::bitwise, BuiltinName::poseidon];
        let entries = vec![
            LayoutSpec { layout: LayoutName::starknet_with_keccak, cost: 15, capacity: full },
            LayoutSpec { layout: LayoutName::recursive, cost: 10, capacity: recursive },
            LayoutSpec { layout: LayoutName::starknet, cost: 10, capacity: starknet },
            LayoutSpec { layout: LayoutName::recursive_with_poseidon, cost: 8, capacity: with_poseidon },
        ];
        let r = LayoutCatalog { entries, fallback: 0 };
        proof {
            let f = r.entries@[0].capacity@;
            assert forall|i: int, b: BuiltinName|
                0 <= i < r.entries@.len() && #[trigger] r.entries@[i].capacity@.contains(b)
                    implies f.contains(b) by {
                let c = r.entries@[i].capacity@;
                let k = choose|k: int| 0 <= k < c.len() && c[k] == b;
                match b {
                    BuiltinName::pedersen => assert(f[0] == b),
                    BuiltinName::range_check => assert(f[1] == b),
                    BuiltinName::ecdsa => assert(f[2] == b),
                    BuiltinName::bitwise => assert(f[3] == b),
                    BuiltinName::ec_op => assert(f[4] == b),
                    BuiltinName::keccak => assert(f[5] == b),
                    BuiltinName::poseidon => assert(f[6] == b),
                    _ => {},
                }
            }
        }
        r
    }
}

/// Where some entry covers a requirement, the chosen entry covers it too and costs no more
/// than any entry that covers it.
pub proof fn lemma_chosen_is_cheapest_cover(c: LayoutCatalog, i: int, req: Set<BuiltinName>)
    requires
        c.wf(),
        c.chosen(i, req),
        exists|j: int| c.qualifies(j, req),
    ensures
        0 <= i < c.entries@.len(),
        covers(c.entries@[i].capacity@, req),
        forall|j: int| 0 <= j < c.entries@.len() && covers(#[trigger] c.entries@[j].capacity@, req)
            ==> c.entries@[i].cost <= c.entries@[j].cost,
{
    assert forall|j: int| 0 <= j < c.entries@.len() && covers(#[trigger] c.entries@[j].capacity@, req)
        implies c.entries@[i].cost <= c.entries@[j].cost by {
        assert(c.qualifies(j, req));
    }
}

/// Where no entry covers a requirement, the fallback entry is chosen.
pub proof fn lemma_uncovered_falls_back(c: LayoutCatalog, i: int, req: Set<BuiltinName>)
    requires
        c.wf(),
        c.chosen(i, req),
        forall|j: int| 0 <= j < c.entries@.len() ==> !covers(#[trigger] c.entries@[j].capacity@, req),
    ensures
        i == c.fallback,
{
    if exists|j: int| c.qualifies(j, req) {
        let j = choose|j: int| c.qualifies(j, req);
        assert(covers(c.entries@[j].capacity@, req));
    }
}

/// Whether a list holds a builtin.
pub fn holds_builtin(v: &Vec<BuiltinName>, b: BuiltinName) -> (r: bool)
    ensures
        r == v@.contains(b),
{
    let mut i: usize = 0;
    while i < v.len()
        invariant
            i <= v@.len(),
            forall|k: int| 0 <= k < i ==> v@[k] != b,
        decreases v@.len() - i,
    {
        if same_builtin(v[i], b) {
            return true;
        }
        i = i + 1;
    }
    false
}

/// Whether a capacity list offers every builtin of a list of required ones.
pub fn offers_all(capacity: &Vec<BuiltinName>, req: &Vec<BuiltinName>) -> (r: bool)
    ensures
        r == covers(capacity@, req@.to_set()),
{
    let mut i: usize = 0;
    while i < req.len()
        invariant
            i <= req@.len(),
            forall|k: int| 0 <= k < i ==> capacity@.contains(req@[k]),
        decreases req@.len() - i,
    {
        if !holds_builtin(capacity, req[i]) {
            assert(req@.to_set().contains(req@[i as int]));
            return false;
        }
        i = i + 1;
    }
    assert forall|b: BuiltinName| req@.to_set().contains(b) implies capacity@.contains(b) by {
        let k = choose|k: int| 0 <= k < req@.len() && req@[k] == b;
    }
    true
}

/// The builtins that a list of names denotes, each once; unknown names are left out.
pub fn parse_builtins(names: &Vec<String>) -> (r: Vec<BuiltinName>)
    ensures
        r@.to_set() == required_builtins(texts(names@)),
{
    let mut out: Vec<BuiltinName> = Vec::new();
    let mut i: usize = 0;
    while i < names.len()
        invariant
            i <= names@.len(),
            forall|b: BuiltinName| out@.contains(b) <==>
                exists|k: int| 0 <= k < i && builtin_named(#[trigger] names@[k]@) == Some(b),
        decreases names@.len() - i,
    {
        let ghost prev = out@;
        let parsed = BuiltinName::from_str(names[i].as_str());
        if let Some(b) = parsed {
            if !holds_builtin(&out, b) {
                out.push(b);
            }
        }
        proof {
            assert forall|b: BuiltinName| out@.contains(b) <==>
                exists|k: int| 0 <= k < i + 1 && builtin_named(#[trigger] names@[k]@) == Some(b) by {
                if out@.contains(b) && !prev.contains(b) {
                    let j = choose|j: int| 0 <= j < out@.len() && out@[j] == b;
                    assert(j == prev.len());
                    assert(builtin_named(names@[i as int]@) == Some(b));
                }
                if exists|k: int| 0 <= k < i + 1 && builtin_named(#[trigger] names@[k]@) == Some(b) {
                    let k = choose|k: int| 0 <= k < i + 1 && builtin_named(#[trigger] names@[k]@) == Some(b);
                    if k < i {
                        assert(prev.contains(b));
                        let j = choose|j: int| 0 <= j < prev.len() && prev[j] == b;
                        assert(out@[j] == b);
                    } else {
                        if !prev.contains(b) {
                            assert(out@[prev.len() as int] == b);
                        } else {
                            let j = choose|j: int| 0 <= j < prev.len() && prev[j] == b;
                            assert(out@[j] == b);
                        }
                    }
                }
            }
        }
        i = i + 1;
    }
    proof {
        let t = texts(names@);
        assert forall|b: BuiltinName| out@.to_set().contains(b) <==> required_builtins(t).contains(b) by {
            if required_builtins(t).contains(b) {
                let k = choose|k: int| 0 <= k < t.len() && builtin_named(t[k]) == Some(b);
                assert(t[k] == names@[k]@);
            }
            if out@.contains(b) {
                let k = choose|k: int| 0 <= k < names@.len() && builtin_named(#[trigger] names@[k]@) == Some(b);
                assert(t[k] == names@[k]@);
            }
        }
        assert(out@.to_set() =~= required_builtins(t));
    }
    out
}

/// Whether two builtins are the same.
pub fn same_builtin(a: BuiltinName, b: BuiltinName) -> (r: bool)
    ensures
        r == (a == b),
{
    let ra: u8 = match a {
        BuiltinName::output => 0,
        BuiltinName::range_check => 1,
        BuiltinName::pedersen => 2,
        BuiltinName::ecdsa => 3,
        BuiltinName::keccak => 4,
        BuiltinName::bitwise => 5,
        BuiltinName::ec_op => 6,
        BuiltinName::poseidon => 7,
        BuiltinName::segment_arena => 8,
        BuiltinName::range_check96 => 9,
        BuiltinName::add_mod => 10,
        BuiltinName::mul_mod => 11,
    };
    let rb: u8 = match b {
        BuiltinName::output => 0,
        BuiltinName::range_check => 1,
        BuiltinName::pedersen => 2,
        BuiltinName::ecdsa => 3,
        BuiltinName::keccak => 4,
        BuiltinName::bitwise => 5,
        BuiltinName::ec_op => 6,
        BuiltinName::poseidon => 7,
        BuiltinName::segment_arena => 8,
        BuiltinName::range_check96 => 9,
        BuiltinName::add_mod => 10,
        BuiltinName::mul_mod => 11,
    };
    assert(ra as nat == builtin_rank(a) && rb as nat == builtin_rank(b));
    ra == rb
}

} // verus!

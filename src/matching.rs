use vstd::prelude::*;
use crate::bytes::{
    bytes_eq, contains_bytes, contains_spec, count_compare, key_number, num_cmp, octet_cmp,
    octet_compare, rel_holds, relation_holds, NUMBER_LIMIT,
};
use crate::leaf::{Comparator, LeafTest, MatchKind, MatchType, Relation, Test};

verus! {

/// The contents of a list of byte strings.
pub open spec fn views(v: Seq<Vec<u8>>) -> Seq<Seq<u8>> {
    v.map_values(|x: Vec<u8>| x@)
}

/// What a comparator or pattern engine decided for one key and one value:
/// under this comparator the pair satisfies this kind of match, with these
/// captured substrings (wildcard and regex matches only).
#[derive(Debug)]
pub struct PatternMatch {
    pub kind: MatchKind,
    pub comparator: Comparator,
    pub key: Vec<u8>,
    pub value: Vec<u8>,
    pub captures: Vec<Vec<u8>>,
}

/// The message as the dispatcher sees it: the values of its fields (a source
/// names a field by index; a missing field reads as empty), the outcomes
/// of the comparators and pattern engines (a pair not listed does not match;
/// octet-wise `:is`, `:contains` and `:value` are computed here instead), and the values
/// that the external lists hold, for resolving list lookups.
#[derive(Debug)]
pub struct Context {
    pub fields: Vec<Vec<u8>>,
    pub patterns: Vec<PatternMatch>,
    pub members: Vec<Vec<u8>>,
}

/// A request for an external list-membership lookup: is any of `values` a
/// member of any of the lists named in `lists`? The caller applies `is_not`
/// to the answer.
#[derive(Debug)]
pub struct ListLookup {
    pub lists: Vec<Vec<u8>>,
    pub values: Vec<Vec<u8>>,
    pub comparator: Comparator,
    pub is_not: bool,
}

/// The outcome of evaluating a leaf test.
#[derive(Debug)]
pub enum TestResult {
    Bool(bool),
    Event(ListLookup),
}

impl Context {
    /// The value that source `s` reads.
    pub open spec fn value_of(self, s: usize) -> Seq<u8> {
        if s < self.fields@.len() {
            self.fields@[s as int]@
        } else {
            Seq::empty()
        }
    }

    /// Index of the first outcome at or after `i` for this kind of match,
    /// comparator, key and value, or -1.
    pub open spec fn pattern_from(
        self,
        kind: MatchKind,
        cmp: Comparator,
        k: Seq<u8>,
        v: Seq<u8>,
        i: int,
    ) -> int
        decreases self.patterns@.len() - i,
    {
        if i < 0 || i >= self.patterns@.len() {
            -1
        } else if self.patterns@[i].kind == kind && self.patterns@[i].comparator == cmp
            && self.patterns@[i].key@ == k
            && self.patterns@[i].value@ == v {
            i
        } else {
            self.pattern_from(kind, cmp, k, v, i + 1)
        }
    }

    /// Index of the outcome for this kind of match, comparator, key and
    /// value, or -1.
    pub open spec fn pattern_index(self, kind: MatchKind, cmp: Comparator, k: Seq<u8>, v: Seq<u8>) -> int {
        self.pattern_from(kind, cmp, k, v, 0)
    }
}

/// Whether one key and one value satisfy a (non-count, non-list) match type
/// under a comparator: octet-wise `:is`, `:contains` and `:value` are
/// equality, containment and byte order; every other case is what the
/// context's outcomes say.
pub open spec fn pair_matches(
    mt: MatchType,
    cmp: Comparator,
    k: Seq<u8>,
    v: Seq<u8>,
    ctx: Context,
) -> bool {
    match mt {
        MatchType::Is => if cmp is Octet {
            k == v
        } else {
            ctx.pattern_index(MatchKind::Is, cmp, k, v) >= 0
        },
        MatchType::Contains => if cmp is Octet {
            contains_spec(k, v)
        } else {
            ctx.pattern_index(MatchKind::Contains, cmp, k, v) >= 0
        },
        MatchType::Value(rel) => if cmp is Octet {
            rel_holds(octet_cmp(v, k), rel)
        } else {
            ctx.pattern_index(MatchKind::Value(rel), cmp, k, v) >= 0
        },
        MatchType::Matches(_) => ctx.pattern_index(MatchKind::Matches, cmp, k, v) >= 0,
        MatchType::Regex(_) => ctx.pattern_index(MatchKind::Regex, cmp, k, v) >= 0,
        _ => false,
    }
}

/// The outcome kind a wildcard or regex match type looks up.
pub open spec fn pattern_kind(mt: MatchType) -> MatchKind {
    if mt is Regex {
        MatchKind::Regex
    } else {
        MatchKind::Matches
    }
}

impl LeafTest {
    /// Whether key `ki` and source `si` form a satisfying pair.
    pub open spec fn pair_ok(self, ctx: Context, ki: int, si: int) -> bool {
        let v = ctx.value_of(self.sources@[si]);
        !(self.empty_is_absent && v.len() == 0) && pair_matches(
            self.match_type,
            self.comparator,
            self.keys@[ki]@,
            v,
            ctx,
        )
    }

    /// The first source at or after `si` that satisfies key `ki`, or -1.
    pub open spec fn first_source(self, ctx: Context, ki: int, si: int) -> int
        decreases self.sources@.len() - si,
    {
        if si < 0 || si >= self.sources@.len() {
            -1
        } else if self.pair_ok(ctx, ki, si) {
            si
        } else {
            self.first_source(ctx, ki, si + 1)
        }
    }

    /// The first satisfying pair (key, source) from key `ki` on, keys in the
    /// outer order, or (-1, -1).
    pub open spec fn first_pair(self, ctx: Context, ki: int) -> (int, int)
        decreases self.keys@.len() - ki,
    {
        if ki < 0 || ki >= self.keys@.len() {
            (-1, -1)
        } else if self.first_source(ctx, ki, 0) >= 0 {
            (ki, self.first_source(ctx, ki, 0))
        } else {
            self.first_pair(ctx, ki + 1)
        }
    }

    /// Whether any key and source form a satisfying pair.
    pub open spec fn raw_match(self, ctx: Context) -> bool {
        self.first_pair(ctx, 0).0 >= 0
    }

    /// How many of the sources read a non-empty value.
    pub open spec fn count_nonempty(self, ctx: Context, n: int) -> nat
        decreases n,
    {
        if n <= 0 {
            0
        } else {
            self.count_nonempty(ctx, n - 1) + if ctx.value_of(self.sources@[n - 1]).len() > 0 {
                1nat
            } else {
                0nat
            }
        }
    }

    /// The outcome of a count match before negation.
    pub open spec fn count_match(self, ctx: Context, rel: Relation) -> bool {
        let n = self.count_nonempty(ctx, self.sources@.len() as int);
        !(self.empty_is_absent && n == 0) && exists|ki: int|
            0 <= ki < self.keys@.len() && rel_holds(
                num_cmp(n as int, key_number(#[trigger] self.keys@[ki]@)),
                rel,
            )
    }

    /// The non-empty values of the first `n` sources, each kept once, in
    /// order of first occurrence.
    pub open spec fn list_values(self, ctx: Context, n: int) -> Seq<Seq<u8>>
        decreases n,
    {
        if n <= 0 {
            Seq::empty()
        } else {
            let prev = self.list_values(ctx, n - 1);
            let v = ctx.value_of(self.sources@[n - 1]);
            if v.len() == 0 || prev.contains(v) {
                prev
            } else {
                prev.push(v)
            }
        }
    }

    /// The captures that evaluation writes to the context, if any: those of
    /// the first satisfying pair of a capturing wildcard or regex test, when
    /// there are some.
    pub open spec fn captured(self, ctx: Context) -> Option<Seq<Seq<u8>>> {
        let wants = match self.match_type {
            MatchType::Matches(c) => c,
            MatchType::Regex(c) => c,
            _ => false,
        };
        let (ki, si) = self.first_pair(ctx, 0);
        let p = ctx.pattern_index(
            pattern_kind(self.match_type),
            self.comparator,
            self.keys@[ki]@,
            ctx.value_of(self.sources@[si]),
        );
        if wants && ki >= 0 && p >= 0 && ctx.patterns@[p].captures@.len() > 0 {
            Some(views(ctx.patterns@[p].captures@))
        } else {
            None
        }
    }
}


impl Context {
    /// The field that source `s` names, if there is one.
    pub fn read(&self, s: usize) -> (r: Option<&Vec<u8>>)
        ensures
            match r {
                Some(v) => s < self.fields@.len() && v@ == self.value_of(s),
                None => s >= self.fields@.len() && self.value_of(s).len() == 0,
            },
    {
        if s < self.fields.len() {
            Some(&self.fields[s])
        } else {
            None
        }
    }

    /// The outcome that a comparator or pattern engine gave for a key and a
    /// value.
    pub fn find_pattern(&self, kind: MatchKind, cmp: Comparator, k: &Vec<u8>, v: &Vec<u8>) -> (r:
        Option<usize>)
        ensures
            match r {
                Some(p) => p < self.patterns@.len() && p as int == self.pattern_index(
                    kind,
                    cmp,
                    k@,
                    v@,
                ),
                None => self.pattern_index(kind, cmp, k@, v@) == -1,
            },
    {
        let mut i: usize = 0;
        while i < self.patterns.len()
            invariant
                i <= self.patterns@.len(),
                self.pattern_index(kind, cmp, k@, v@) == self.pattern_from(kind, cmp, k@, v@, i as int),
            decreases self.patterns@.len() - i,
        {
            let pm = &self.patterns[i];
            if pm.kind == kind && pm.comparator == cmp && bytes_eq(&pm.key, k) && bytes_eq(&pm.value, v) {
                return Some(i);
            }
            i = i + 1;
        }
        None
    }
}

/// Whether one key and one value satisfy a (non-count, non-list) match type.
pub fn match_pair(mt: MatchType, cmp: Comparator, k: &Vec<u8>, v: &Vec<u8>, ctx: &Context) -> (r:
    bool)
    ensures
        r == pair_matches(mt, cmp, k@, v@, *ctx),
{
    let octet = match cmp {
        Comparator::Octet => true,
        _ => false,
    };
    match mt {
        MatchType::Is => if octet {
            bytes_eq(k, v)
        } else {
            ctx.find_pattern(MatchKind::Is, cmp, k, v).is_some()
        },
        MatchType::Contains => if octet {
            contains_bytes(k, v)
        } else {
            ctx.find_pattern(MatchKind::Contains, cmp, k, v).is_some()
        },
        MatchType::Value(rel) => if octet {
            relation_holds(octet_compare(v, k), rel)
        } else {
            ctx.find_pattern(MatchKind::Value(rel), cmp, k, v).is_some()
        },
        MatchType::Matches(_) => ctx.find_pattern(MatchKind::Matches, cmp, k, v).is_some(),
        MatchType::Regex(_) => ctx.find_pattern(MatchKind::Regex, cmp, k, v).is_some(),
        _ => false,
    }
}

impl LeafTest {
    pub proof fn lemma_first_source_range(self, ctx: Context, ki: int, si: int)
        ensures
            self.first_source(ctx, ki, si) == -1 || (si <= self.first_source(ctx, ki, si)
                < self.sources@.len() && self.pair_ok(ctx, ki, self.first_source(ctx, ki, si))),
        decreases self.sources@.len() - si,
    {
        if 0 <= si < self.sources@.len() && !self.pair_ok(ctx, ki, si) {
            self.lemma_first_source_range(ctx, ki, si + 1);
        }
    }

    pub proof fn lemma_first_pair_range(self, ctx: Context, ki: int)
        ensures
            self.first_pair(ctx, ki).0 == -1 || (ki <= self.first_pair(ctx, ki).0
                < self.keys@.len() && 0 <= self.first_pair(ctx, ki).1 < self.sources@.len()
                && self.pair_ok(ctx, self.first_pair(ctx, ki).0, self.first_pair(ctx, ki).1)),
        decreases self.keys@.len() - ki,
    {
        if 0 <= ki < self.keys@.len() {
            self.lemma_first_source_range(ctx, ki, 0);
            if self.first_source(ctx, ki, 0) < 0 {
                self.lemma_first_pair_range(ctx, ki + 1);
            }
        }
    }

    /// The first satisfying key / source pair, keys in the outer order and
    /// sources in the inner one.
    pub fn find_pair(&self, ctx: &Context) -> (r: Option<(usize, usize)>)
        ensures
            match r {
                Some((k, s)) => self.first_pair(*ctx, 0) == (k as int, s as int) && k
                    < self.keys@.len() && s < self.sources@.len(),
                None => self.first_pair(*ctx, 0).0 == -1,
            },
    {
        proof {
            self.lemma_first_pair_range(*ctx, 0);
        }
        let empty: Vec<u8> = Vec::new();
        let mut ki: usize = 0;
        while ki < self.keys.len()
            invariant
                ki <= self.keys@.len(),
                empty@ =~= Seq::<u8>::empty(),
                self.first_pair(*ctx, 0) == self.first_pair(*ctx, ki as int),
            decreases self.keys@.len() - ki,
        {
            let mut si: usize = 0;
            while si < self.sources.len()
                invariant
                    ki < self.keys@.len(),
                    si <= self.sources@.len(),
                    self.first_pair(*ctx, 0) == self.first_pair(*ctx, ki as int),
                    empty@ =~= Seq::<u8>::empty(),
                    self.first_source(*ctx, ki as int, 0) == self.first_source(
                        *ctx,
                        ki as int,
                        si as int,
                    ),
                decreases self.sources@.len() - si,
            {
                let v: &Vec<u8> = match ctx.read(self.sources[si]) {
                    Some(v) => v,
                    None => &empty,
                };
                assert(v@ == ctx.value_of(self.sources@[si as int]));
                if !(self.empty_is_absent && v.len() == 0) && match_pair(
                    self.match_type,
                    self.comparator,
                    &self.keys[ki],
                    v,
                    ctx,
                ) {
                    assert(self.pair_ok(*ctx, ki as int, si as int));
                    assert(self.first_source(*ctx, ki as int, 0) == si);
                    assert(self.first_pair(*ctx, ki as int) == (ki as int, si as int));
                    return Some((ki, si));
                }
                si = si + 1;
            }
            assert(self.first_source(*ctx, ki as int, si as int) == -1);
            ki = ki + 1;
        }
        None
    }

    /// How many of the sources read a non-empty value.
    pub fn count_values(&self, ctx: &Context) -> (r: usize)
        ensures
            r as int == self.count_nonempty(*ctx, self.sources@.len() as int),
    {
        let mut n: usize = 0;
        let mut i: usize = 0;
        while i < self.sources.len()
            invariant
                i <= self.sources@.len(),
                n <= i,
                n as int == self.count_nonempty(*ctx, i as int),
            decreases self.sources@.len() - i,
        {
            match ctx.read(self.sources[i]) {
                Some(v) => {
                    if v.len() > 0 {
                        n = n + 1;
                    }
                },
                None => {},
            }
            i = i + 1;
        }
        n
    }

    /// The non-empty source values, each kept once, in order of first
    /// occurrence.
    pub fn collect_values(&self, ctx: &Context) -> (r: Vec<Vec<u8>>)
        ensures
            views(r@) == self.list_values(*ctx, self.sources@.len() as int),
    {
        let mut out: Vec<Vec<u8>> = Vec::new();
        let mut i: usize = 0;
        while i < self.sources.len()
            invariant
                i <= self.sources@.len(),
                views(out@) == self.list_values(*ctx, i as int),
            decreases self.sources@.len() - i,
        {
            match ctx.read(self.sources[i]) {
                Some(v) => {
                    if v.len() > 0 && !contains_value(&out, v) {
                        let c = v.clone();
                        assert(c@ =~= v@);
                        out.push(c);
                        assert(views(out@) =~= self.list_values(*ctx, i as int).push(v@));
                    }
                },
                None => {},
            }
            i = i + 1;
        }
        out
    }
}

impl LeafTest {
    /// The outcome of evaluating this test against a message, before any
    /// list lookup: a count match or any other match type gives a boolean
    /// with the negation flag applied; a list match gives a lookup request
    /// when some source reads a non-empty value, and `false` otherwise.
    pub open spec fn outcome(self, ctx: Context, r: TestResult) -> bool {
        match self.match_type {
            MatchType::List => {
                let vals = self.list_values(ctx, self.sources@.len() as int);
                if vals.len() == 0 {
                    r == TestResult::Bool(false)
                } else {
                    match r {
                        TestResult::Event(e) => views(e.lists@) == views(self.keys@) && views(
                            e.values@,
                        ) == vals && e.comparator == self.comparator && e.is_not == self.is_not,
                        TestResult::Bool(_) => false,
                    }
                }
            },
            _ => r == TestResult::Bool(self.bool_value(ctx)),
        }
    }

    /// The truth value of a count match or of any other match type but a
    /// list match, with the negation flag applied.
    pub open spec fn bool_value(self, ctx: Context) -> bool {
        match self.match_type {
            MatchType::Count(rel) => self.count_match(ctx, rel) != self.is_not,
            _ => self.raw_match(ctx) != self.is_not,
        }
    }

    /// Whether the count of non-empty sources satisfies the relation with
    /// some key.
    pub fn match_count(&self, ctx: &Context, rel: Relation) -> (r: bool)
        requires
            self.sources@.len() < NUMBER_LIMIT,
        ensures
            r == self.count_match(*ctx, rel),
    {
        let n = self.count_values(ctx);
        proof {
            self.lemma_count_bound(*ctx, self.sources@.len() as int);
        }
        if self.empty_is_absent && n == 0 {
            return false;
        }
        let mut ki: usize = 0;
        while ki < self.keys.len()
            invariant
                ki <= self.keys@.len(),
                n < NUMBER_LIMIT,
                !(self.empty_is_absent && n == 0),
                n as int == self.count_nonempty(*ctx, self.sources@.len() as int),
                forall|j: int|
                    0 <= j < ki ==> !rel_holds(
                        num_cmp(n as int, key_number(#[trigger] self.keys@[j]@)),
                        rel,
                    ),
            decreases self.keys@.len() - ki,
        {
            if relation_holds(count_compare(n, &self.keys[ki]), rel) {
                assert(rel_holds(num_cmp(n as int, key_number(self.keys@[ki as int]@)), rel));
                return true;
            }
            ki = ki + 1;
        }
        false
    }

    proof fn lemma_count_bound(self, ctx: Context, n: int)
        requires
            n <= self.sources@.len(),
        ensures
            self.count_nonempty(ctx, n) <= if n < 0 { 0 } else { n },
        decreases n,
    {
        if n > 0 {
            self.lemma_count_bound(ctx, n - 1);
        }
    }

    /// Evaluates this test against a message. A capturing wildcard or regex
    /// test whose first satisfying pair has captures replaces the capture
    /// variables with them, whatever the negation flag; otherwise the
    /// capture variables stay as they are.
    pub fn evaluate(&self, ctx: &Context, captures: &mut Vec<Vec<u8>>) -> (r: TestResult)
        requires
            self.sources@.len() < NUMBER_LIMIT,
        ensures
            self.outcome(*ctx, r),
            match self.captured(*ctx) {
                Some(c) => views(final(captures)@) == c,
                None => *final(captures) == *old(captures),
            },
    {
        match self.match_type {
            MatchType::List => {
                let values = self.collect_values(ctx);
                if values.len() == 0 {
                    TestResult::Bool(false)
                } else {
                    TestResult::Event(
                        ListLookup {
                            lists: copy_all(&self.keys),
                            values,
                            comparator: self.comparator,
                            is_not: self.is_not,
                        },
                    )
                }
            },
            MatchType::Count(rel) => TestResult::Bool(self.match_count(ctx, rel) != self.is_not),
            _ => {
                let found = self.find_pair(ctx);
                let kind = match self.match_type {
                    MatchType::Regex(_) => MatchKind::Regex,
                    _ => MatchKind::Matches,
                };
                let wants = match self.match_type {
                    MatchType::Matches(c) => c,
                    MatchType::Regex(c) => c,
                    _ => false,
                };
                match found {
                    Some((ki, si)) => {
                        if wants {
                            let empty: Vec<u8> = Vec::new();
                            let p = match ctx.read(self.sources[si]) {
                                Some(v) => ctx.find_pattern(kind, self.comparator, &self.keys[ki], v),
                                None => ctx.find_pattern(kind, self.comparator, &self.keys[ki], &empty),
                            };
                            match p {
                                Some(p) => {
                                    if ctx.patterns[p].captures.len() > 0 {
                                        *captures = copy_all(&ctx.patterns[p].captures);
                                    }
                                },
                                None => {},
                            }
                        }
                        TestResult::Bool(!self.is_not)
                    },
                    None => TestResult::Bool(self.is_not),
                }
            },
        }
    }
}

/// Whether a list lookup finds some value among the list members.
pub open spec fn lookup_hit(values: Seq<Seq<u8>>, ctx: Context) -> bool {
    exists|i: int| 0 <= i < values.len() && views(ctx.members@).contains(#[trigger] values[i])
}

/// The truth value of a test: that of the constants and of the leaf tests,
/// where a list match that asks for a lookup gets the lookup's answer with
/// its negation flag applied, and `false` for the vacation and invalid tests.
pub open spec fn test_value(t: Test, ctx: Context) -> bool {
    match t {
        Test::True => true,
        Test::False => false,
        Test::Leaf(l) => if l.match_type is List {
            let vals = l.list_values(ctx, l.sources@.len() as int);
            vals.len() > 0 && (lookup_hit(vals, ctx) != l.is_not)
        } else {
            l.bool_value(ctx)
        },
        _ => false,
    }
}

impl Test {
    /// Evaluates a test to a truth value, resolving a list lookup request
    /// against the list members of the context.
    pub fn check(&self, ctx: &Context, captures: &mut Vec<Vec<u8>>) -> (r: bool)
        requires
            self is Leaf ==> self->Leaf_0.sources@.len() < NUMBER_LIMIT,
        ensures
            r == test_value(*self, *ctx),
    {
        match self {
            Test::True => true,
            Test::False => false,
            Test::Leaf(l) => match l.evaluate(ctx, captures) {
                TestResult::Bool(b) => b,
                TestResult::Event(e) => any_member(&e.values, ctx) != e.is_not,
            },
            _ => false,
        }
    }
}

/// Whether some value is among the list members.
pub fn any_member(values: &Vec<Vec<u8>>, ctx: &Context) -> (r: bool)
    ensures
        r == lookup_hit(views(values@), *ctx),
{
    let mut i: usize = 0;
    while i < values.len()
        invariant
            i <= values@.len(),
            forall|j: int| 0 <= j < i ==> !views(ctx.members@).contains(#[trigger] views(values@)[j]),
        decreases values@.len() - i,
    {
        if contains_value(&ctx.members, &values[i]) {
            assert(views(values@)[i as int] == values@[i as int]@);
            return true;
        }
        assert(views(values@)[i as int] == values@[i as int]@);
        i = i + 1;
    }
    false
}

/// A copy of a list of byte strings.
pub fn copy_all(vals: &Vec<Vec<u8>>) -> (r: Vec<Vec<u8>>)
    ensures
        views(r@) == views(vals@),
{
    let mut out: Vec<Vec<u8>> = Vec::new();
    let mut i: usize = 0;
    while i < vals.len()
        invariant
            i <= vals@.len(),
            out@.len() == i,
            forall|j: int| 0 <= j < i ==> out@[j]@ == vals@[j]@,
        decreases vals@.len() - i,
    {
        let c = vals[i].clone();
        assert(c@ =~= vals@[i as int]@);
        out.push(c);
        i = i + 1;
    }
    assert(views(out@) =~= views(vals@));
    out
}

/// Whether `v` is among `vals`.
pub fn contains_value(vals: &Vec<Vec<u8>>, v: &Vec<u8>) -> (r: bool)
    ensures
        r == views(vals@).contains(v@),
{
    let mut i: usize = 0;
    while i < vals.len()
        invariant
            i <= vals@.len(),
            forall|j: int| 0 <= j < i ==> vals@[j]@ != v@,
        decreases vals@.len() - i,
    {
        if bytes_eq(&vals[i], v) {
            assert(views(vals@)[i as int] == v@);
            return true;
        }
        i = i + 1;
    }
    assert forall|j: int| 0 <= j < views(vals@).len() implies views(vals@)[j] != v@ by {
        assert(views(vals@)[j] == vals@[j]@);
    }
    false
}

} // verus!

//! The pass after decoding that attaches names from the symbol tables to ids.
use vstd::prelude::*;
use crate::types::{
    Bucket, BucketTypes, BucketTypesView, BucketView, CrushMapView, CrushRuleStep, NamedId,
    NamedIdView, Rule, RuleStepView, RuleView,
};

verus! {

/// The name of the first entry of `t`, from index `i` on, whose id is `id`.
pub open spec fn lookup_from(t: Seq<(i32, Seq<char>)>, id: i32, i: int) -> Option<Seq<char>>
    decreases t.len() - i,
{
    if i < 0 || i >= t.len() {
        None
    } else if t[i].0 == id {
        Some(t[i].1)
    } else {
        lookup_from(t, id, i + 1)
    }
}

/// The name of the first entry of `t` whose id is `id`, if there is one.
pub open spec fn lookup(t: Seq<(i32, Seq<char>)>, id: i32) -> Option<Seq<char>> {
    lookup_from(t, id, 0)
}

pub open spec fn resolve_id(a: NamedIdView, t: Seq<(i32, Seq<char>)>) -> NamedIdView {
    (a.0, lookup(t, a.0))
}

pub open spec fn resolve_items(items: Seq<NamedIdView>, t: Seq<(i32, Seq<char>)>) -> Seq<NamedIdView> {
    Seq::new(items.len(), |k: int| resolve_id(items[k], t))
}

pub open spec fn resolve_bucket_view(b: BucketView, t: Seq<(i32, Seq<char>)>) -> BucketView {
    BucketView { items: resolve_items(b.items, t), ..b }
}

/// A bucket slot with its item names looked up in `t`; unknown slots hold no names.
pub open spec fn resolve_bucket(x: BucketTypesView, t: Seq<(i32, Seq<char>)>) -> BucketTypesView {
    match x {
        BucketTypesView::Uniform(b, w) => BucketTypesView::Uniform(resolve_bucket_view(b, t), w),
        BucketTypesView::List(b, w) => BucketTypesView::List(resolve_bucket_view(b, t), w),
        BucketTypesView::Tree(b, n, w) => BucketTypesView::Tree(resolve_bucket_view(b, t), n, w),
        BucketTypesView::Straw(b, w) => BucketTypesView::Straw(resolve_bucket_view(b, t), w),
        BucketTypesView::Straw2(b, w) => BucketTypesView::Straw2(resolve_bucket_view(b, t), w),
        BucketTypesView::Unknown(u) => BucketTypesView::Unknown(u),
    }
}

pub open spec fn resolve_buckets(bs: Seq<BucketTypesView>, t: Seq<(i32, Seq<char>)>) -> Seq<
    BucketTypesView,
> {
    Seq::new(bs.len(), |k: int| resolve_bucket(bs[k], t))
}

/// A rule step argument with the name the table gives its id; an argument
/// whose id the table lacks keeps the name it had.
pub open spec fn resolve_arg(a: NamedIdView, t: Seq<(i32, Seq<char>)>) -> NamedIdView {
    match lookup(t, a.0) {
        Some(n) => (a.0, Some(n)),
        None => a,
    }
}

pub open spec fn resolve_step(s: RuleStepView, t: Seq<(i32, Seq<char>)>) -> RuleStepView {
    RuleStepView { op: s.op, arg1: resolve_arg(s.arg1, t), arg2: resolve_arg(s.arg2, t) }
}

pub open spec fn resolve_rule(r: RuleView, t: Seq<(i32, Seq<char>)>) -> RuleView {
    RuleView { mask: r.mask, steps: Seq::new(r.steps.len(), |k: int| resolve_step(r.steps[k], t)) }
}

pub open spec fn resolve_slot(r: Option<RuleView>, t: Seq<(i32, Seq<char>)>) -> Option<RuleView> {
    match r {
        Some(r) => Some(resolve_rule(r, t)),
        None => None,
    }
}

pub open spec fn resolve_rules(rs: Seq<Option<RuleView>>, t: Seq<(i32, Seq<char>)>) -> Seq<
    Option<RuleView>,
> {
    Seq::new(rs.len(), |k: int| resolve_slot(rs[k], t))
}

/// The map with item names taken from its name table and rule step
/// argument names taken from its type table.
pub open spec fn resolve_map(m: CrushMapView) -> CrushMapView {
    CrushMapView {
        buckets: resolve_buckets(m.buckets, m.name_map),
        rules: resolve_rules(m.rules, m.type_map),
        ..m
    }
}

/// Looks `id` up in `table`; the first matching entry wins.
fn find_name(table: &Vec<(i32, String)>, id: i32) -> (r: Option<String>)
    ensures
        r.deep_view() == lookup(table.deep_view(), id),
{
    let ghost t = table.deep_view();
    let mut i: usize = 0;
    while i < table.len()
        invariant
            i <= table@.len(),
            t == table.deep_view(),
            lookup(t, id) == lookup_from(t, id, i as int),
        decreases table@.len() - i,
    {
        if table[i].0 == id {
            let name = table[i].1.clone();
            return Some(name);
        }
        i = i + 1;
    }
    None
}

impl Bucket {
    /// Replaces the name of each item by the one `name_map` gives its id,
    /// keeping the order of the items.
    pub fn update_name_mapping(&mut self, name_map: &Vec<(i32, String)>)
        ensures
            final(self)@ == resolve_bucket_view(old(self)@, name_map.deep_view()),
    {
        let ghost t = name_map.deep_view();
        let mut new_items: Vec<NamedId> = Vec::new();
        let mut i: usize = 0;
        while i < self.items.len()
            invariant
                i <= self.items@.len(),
                self == old(self),
                t == name_map.deep_view(),
                new_items@.len() == i,
                forall|k: int|
                    0 <= k < i ==> #[trigger] new_items@[k].deep_view() == resolve_id(
                        self.items@[k].deep_view(),
                        t,
                    ),
            decreases self.items@.len() - i,
        {
            let id = self.items[i].0;
            let name = find_name(name_map, id);
            new_items.push((id, name));
            i = i + 1;
        }
        self.items = new_items;
        assert(self.items.deep_view() =~= resolve_items(old(self).items.deep_view(), t));
    }
}

impl CrushRuleStep {
    /// Gives each argument the name that `type_map` gives its id; an
    /// argument whose id `type_map` lacks keeps its name.
    pub fn update_arg_mapping(&mut self, type_map: &Vec<(i32, String)>)
        ensures
            final(self)@ == resolve_step(old(self)@, type_map.deep_view()),
    {
        match find_name(type_map, self.arg1.0) {
            Some(name) => self.arg1.1 = Some(name),
            None => {},
        }
        match find_name(type_map, self.arg2.0) {
            Some(name) => self.arg2.1 = Some(name),
            None => {},
        }
    }
}

impl Rule {
    fn update_steps(&mut self, type_map: &Vec<(i32, String)>)
        ensures
            final(self)@ == resolve_rule(old(self)@, type_map.deep_view()),
    {
        let ghost t = type_map.deep_view();
        let mut i: usize = 0;
        while i < self.steps.len()
            invariant
                i <= self.steps@.len(),
                self.steps@.len() == old(self).steps@.len(),
                self.mask == old(self).mask,
                t == type_map.deep_view(),
                forall|k: int|
                    0 <= k < i ==> #[trigger] self.steps@[k]@ == resolve_step(
                        old(self).steps@[k]@,
                        t,
                    ),
                forall|k: int| i <= k < self.steps@.len() ==> #[trigger] self.steps@[k] == old(
                    self,
                ).steps@[k],
            decreases self.steps@.len() - i,
        {
            self.steps[i].update_arg_mapping(type_map);
            i = i + 1;
        }
        assert(self.steps.deep_view() =~= resolve_rule(old(self)@, t).steps);
    }
}

/// Attaches to every step argument of every present rule the name that
/// `type_map` gives its id; an argument whose id `type_map` lacks keeps its
/// name. Empty rule slots stay empty.
pub fn update_rule_steps<'a>(rules: &'a mut Vec<Option<Rule>>, type_map: &Vec<(i32, String)>) -> (ret:
    &'a mut Vec<Option<Rule>>)
    ensures
        (*ret).deep_view() == resolve_rules(old(rules).deep_view(), type_map.deep_view()),
        *final(rules) == *final(ret),
{
    let ghost t = type_map.deep_view();
    let mut i: usize = 0;
    while i < rules.len()
        invariant
            i <= rules@.len(),
            rules@.len() == old(rules)@.len(),
            t == type_map.deep_view(),
            forall|k: int|
                0 <= k < i ==> #[trigger] rules@[k].deep_view() == resolve_slot(
                    old(rules)@[k].deep_view(),
                    t,
                ),
            forall|k: int| i <= k < rules@.len() ==> #[trigger] rules@[k] == old(rules)@[k],
        decreases rules@.len() - i,
    {
        match &mut rules[i] {
            Some(r) => r.update_steps(type_map),
            None => {},
        }
        i = i + 1;
    }
    assert(rules.deep_view() =~= resolve_rules(old(rules).deep_view(), t));
    rules
}

/// Attaches to every item of every bucket the name that `name_map` gives
/// its id. Unknown bucket slots are left as they are.
pub fn update_buckets<'a>(crush_buckets: &'a mut Vec<BucketTypes>, name_map: &Vec<(i32, String)>) -> (ret:
    &'a mut Vec<BucketTypes>)
    ensures
        (*ret).deep_view() == resolve_buckets(old(crush_buckets).deep_view(), name_map.deep_view()),
        *final(crush_buckets) == *final(ret),
{
    let ghost t = name_map.deep_view();
    let mut i: usize = 0;
    while i < crush_buckets.len()
        invariant
            i <= crush_buckets@.len(),
            crush_buckets@.len() == old(crush_buckets)@.len(),
            t == name_map.deep_view(),
            forall|k: int|
                0 <= k < i ==> #[trigger] crush_buckets@[k]@ == resolve_bucket(
                    old(crush_buckets)@[k]@,
                    t,
                ),
            forall|k: int|
                i <= k < crush_buckets@.len() ==> #[trigger] crush_buckets@[k] == old(
                    crush_buckets,
                )@[k],
        decreases crush_buckets@.len() - i,
    {
        match &mut crush_buckets[i] {
            BucketTypes::Uniform(b) => b.bucket.update_name_mapping(name_map),
            BucketTypes::List(b) => b.bucket.update_name_mapping(name_map),
            BucketTypes::Tree(b) => b.bucket.update_name_mapping(name_map),
            BucketTypes::Straw(b) => b.bucket.update_name_mapping(name_map),
            BucketTypes::Straw2(b) => b.bucket.update_name_mapping(name_map),
            BucketTypes::Unknown(_) => {},
        }
        i = i + 1;
    }
    assert(crush_buckets.deep_view() =~= resolve_buckets(old(crush_buckets).deep_view(), t));
    crush_buckets
}

} // verus!

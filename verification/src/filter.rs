//! Payload filters as plain values.
use vstd::prelude::*;

verus! {

/// Payload path that a condition reads.
pub type PayloadKeyType = String;

/// Integer payload value.
pub type IntPayloadType = i64;

/// A single value to match.
#[derive(Debug)]
pub enum ValueVariants {
    Keyword(String),
    Integer(IntPayloadType),
    Bool(bool),
}

/// A set of values of one type. The order of the list is the order in which they were given; it
/// is no part of the set.
#[derive(Debug)]
pub enum AnyVariants {
    Keywords(Vec<String>),
    Integers(Vec<IntPayloadType>),
}

/// How a field has to match.
#[derive(Debug)]
pub enum Match {
    Value(ValueVariants),
    Text(String),
    TextAny(String),
    Phrase(String),
    Any(AnyVariants),
    Except(AnyVariants),
}

/// Interval of order keys, each bound optional.
#[derive(Clone, Copy, Debug, PartialEq, Eq, Structural)]
pub struct RangeBounds {
    pub lt: Option<i64>,
    pub gt: Option<i64>,
    pub lte: Option<i64>,
    pub gte: Option<i64>,
}

/// Fixed-point coordinates of a geographic shape.
#[derive(Debug)]
pub struct GeoShape {
    pub coordinates: Vec<i64>,
}

/// Condition on one payload field.
#[derive(Debug)]
pub struct FieldCondition {
    pub key: PayloadKeyType,
    pub matching: Option<Match>,
    pub range: Option<RangeBounds>,
    pub geo_bounding_box: Option<GeoShape>,
    pub geo_radius: Option<GeoShape>,
    pub geo_polygon: Option<GeoShape>,
    pub values_count: Option<RangeBounds>,
    pub is_empty: Option<bool>,
    pub is_null: Option<bool>,
}

/// One condition of a filter.
#[derive(Debug)]
pub enum Condition {
    Field(FieldCondition),
    IsEmpty(PayloadKeyType),
    IsNull(PayloadKeyType),
    HasId(Vec<u64>),
    HasVector(String),
    Nested(PayloadKeyType, Box<Filter>),
    Filter(Box<Filter>),
    CustomIdChecker(u64),
}

/// Conditions of which a minimum number has to hold.
#[derive(Debug)]
pub struct MinShould {
    pub conditions: Vec<Condition>,
    pub min_count: usize,
}

/// A payload filter.
#[derive(Debug)]
pub struct Filter {
    pub should: Option<Vec<Condition>>,
    pub min_should: Option<MinShould>,
    pub must: Option<Vec<Condition>>,
    pub must_not: Option<Vec<Condition>>,
}

/// Meaning of [`ValueVariants`].
pub ghost enum ValueView {
    Keyword(Seq<char>),
    Integer(int),
    Bool(bool),
}

/// Meaning of [`AnyVariants`].
pub ghost enum AnyView {
    Keywords(Set<Seq<char>>),
    Integers(Set<IntPayloadType>),
}

/// Meaning of [`Match`].
pub ghost enum MatchView {
    Value(ValueView),
    Text(Seq<char>),
    TextAny(Seq<char>),
    Phrase(Seq<char>),
    Any(AnyView),
    Except(AnyView),
}

/// Meaning of [`FieldCondition`].
pub ghost struct FieldView {
    pub key: Seq<char>,
    pub matching: Option<MatchView>,
    pub range: Option<RangeBounds>,
    pub geo_bounding_box: Option<Seq<i64>>,
    pub geo_radius: Option<Seq<i64>>,
    pub geo_polygon: Option<Seq<i64>>,
    pub values_count: Option<RangeBounds>,
    pub is_empty: Option<bool>,
    pub is_null: Option<bool>,
}

/// Meaning of [`Condition`].
pub ghost enum ConditionView {
    Field(FieldView),
    IsEmpty(Seq<char>),
    IsNull(Seq<char>),
    HasId(Set<u64>),
    HasVector(Seq<char>),
    Nested(Seq<char>, Box<FilterView>),
    Filter(Box<FilterView>),
    CustomIdChecker(u64),
}

/// Meaning of [`Filter`].
pub ghost struct FilterView {
    pub should: Option<Seq<ConditionView>>,
    pub min_should: Option<(Seq<ConditionView>, int)>,
    pub must: Option<Seq<ConditionView>>,
    pub must_not: Option<Seq<ConditionView>>,
}

impl View for ValueVariants {
    type V = ValueView;

    open spec fn view(&self) -> ValueView {
        match *self {
            ValueVariants::Keyword(s) => ValueView::Keyword(s@),
            ValueVariants::Integer(i) => ValueView::Integer(i as int),
            ValueVariants::Bool(b) => ValueView::Bool(b),
        }
    }
}

/// The texts of a list of strings.
pub open spec fn texts(list: Seq<String>) -> Seq<Seq<char>> {
    list.map_values(|s: String| s@)
}

impl View for AnyVariants {
    type V = AnyView;

    open spec fn view(&self) -> AnyView {
        match *self {
            AnyVariants::Keywords(list) => AnyView::Keywords(texts(list@).to_set()),
            AnyVariants::Integers(list) => AnyView::Integers(list@.to_set()),
        }
    }
}

impl View for Match {
    type V = MatchView;

    open spec fn view(&self) -> MatchView {
        match *self {
            Match::Value(v) => MatchView::Value(v@),
            Match::Text(s) => MatchView::Text(s@),
            Match::TextAny(s) => MatchView::TextAny(s@),
            Match::Phrase(s) => MatchView::Phrase(s@),
            Match::Any(v) => MatchView::Any(v@),
            Match::Except(v) => MatchView::Except(v@),
        }
    }
}

/// The coordinates of an optional shape.
pub open spec fn shape_view(shape: Option<GeoShape>) -> Option<Seq<i64>> {
    match shape {
        Some(s) => Some(s.coordinates@),
        None => None,
    }
}

/// The meaning of an optional match.
pub open spec fn match_view(matching: Option<Match>) -> Option<MatchView> {
    match matching {
        Some(m) => Some(m@),
        None => None,
    }
}

impl View for FieldCondition {
    type V = FieldView;

    open spec fn view(&self) -> FieldView {
        FieldView {
            key: self.key@,
            matching: match_view(self.matching),
            range: self.range,
            geo_bounding_box: shape_view(self.geo_bounding_box),
            geo_radius: shape_view(self.geo_radius),
            geo_polygon: shape_view(self.geo_polygon),
            values_count: self.values_count,
            is_empty: self.is_empty,
            is_null: self.is_null,
        }
    }
}

impl Condition {
    /// Meaning of the condition.
    pub open spec fn model(self) -> ConditionView
        decreases self,
    {
        match self {
            Condition::Field(f) => ConditionView::Field(f@),
            Condition::IsEmpty(k) => ConditionView::IsEmpty(k@),
            Condition::IsNull(k) => ConditionView::IsNull(k@),
            Condition::HasId(ids) => ConditionView::HasId(ids@.to_set()),
            Condition::HasVector(name) => ConditionView::HasVector(name@),
            Condition::Nested(k, f) => ConditionView::Nested(k@, Box::new(f.model())),
            Condition::Filter(f) => ConditionView::Filter(Box::new(f.model())),
            Condition::CustomIdChecker(id) => ConditionView::CustomIdChecker(id),
        }
    }
}

/// Meaning of a list of conditions.
pub open spec fn conditions_model(list: Seq<Condition>) -> Seq<ConditionView>
    decreases list,
{
    Seq::new(
        list.len(),
        |i: int|
            if 0 <= i < list.len() {
                list[i].model()
            } else {
                arbitrary()
            },
    )
}

/// Meaning of an optional list of conditions.
pub open spec fn clause_model(clause: Option<Vec<Condition>>) -> Option<Seq<ConditionView>>
    decreases clause,
{
    match clause {
        Some(list) => Some(conditions_model(list@)),
        None => None,
    }
}

/// Meaning of an optional minimum clause.
pub open spec fn min_should_model(clause: Option<MinShould>) -> Option<(Seq<ConditionView>, int)>
    decreases clause,
{
    match clause {
        Some(min_should) => Some(
            (conditions_model(min_should.conditions@), min_should.min_count as int),
        ),
        None => None,
    }
}

impl Filter {
    /// Meaning of the filter.
    pub open spec fn model(self) -> FilterView
        decreases self,
    {
        FilterView {
            should: clause_model(self.should),
            min_should: min_should_model(self.min_should),
            must: clause_model(self.must),
            must_not: clause_model(self.must_not),
        }
    }
}

/// Whether two lists hold the same members.
fn same_members_i64(a: &Vec<i64>, b: &Vec<i64>) -> (r: bool)
    ensures
        r == (a@.to_set() == b@.to_set()),
{
    let r = covers_i64(a, b) && covers_i64(b, a);
    proof {
        if r {
            assert(a@.to_set() =~= b@.to_set());
        }
    }
    r
}

/// Whether every member of `b` is one of `a`.
fn covers_i64(a: &Vec<i64>, b: &Vec<i64>) -> (r: bool)
    ensures
        r == b@.to_set().subset_of(a@.to_set()),
{
    let mut i: usize = 0;
    while i < b.len()
        invariant
            i <= b@.len(),
            forall|j: int| 0 <= j < i ==> a@.contains(b@[j]),
        decreases b@.len() - i,
    {
        if !contains_i64(a, b[i]) {
            proof {
                assert(b@.to_set().contains(b@[i as int]));
            }
            return false;
        }
        i = i + 1;
    }
    true
}

/// Whether a list holds a value.
pub fn contains_i64(list: &Vec<i64>, value: i64) -> (r: bool)
    ensures
        r == list@.contains(value),
{
    let mut i: usize = 0;
    while i < list.len()
        invariant
            i <= list@.len(),
            forall|j: int| 0 <= j < i ==> list@[j] != value,
        decreases list@.len() - i,
    {
        if list[i] == value {
            return true;
        }
        i = i + 1;
    }
    false
}

/// Whether every member of `b` is one of `a`.
fn covers_u64(a: &Vec<u64>, b: &Vec<u64>) -> (r: bool)
    ensures
        r == b@.to_set().subset_of(a@.to_set()),
{
    let mut i: usize = 0;
    while i < b.len()
        invariant
            i <= b@.len(),
            forall|j: int| 0 <= j < i ==> a@.contains(b@[j]),
        decreases b@.len() - i,
    {
        let mut found: bool = false;
        let mut k: usize = 0;
        while k < a.len() && !found
            invariant
                i < b@.len(),
                k <= a@.len(),
                found ==> a@.contains(b@[i as int]),
                !found ==> forall|j: int| 0 <= j < k ==> a@[j] != b@[i as int],
            decreases a@.len() - k,
        {
            if a[k] == b[i] {
                found = true;
            }
            k = k + 1;
        }
        if !found {
            proof {
                assert(b@.to_set().contains(b@[i as int]));
                assert(!a@.contains(b@[i as int]));
            }
            return false;
        }
        i = i + 1;
    }
    true
}

/// Whether every text of `b` is one of `a`.
fn covers_text(a: &Vec<String>, b: &Vec<String>) -> (r: bool)
    ensures
        r == texts(b@).to_set().subset_of(texts(a@).to_set()),
{
    let mut i: usize = 0;
    while i < b.len()
        invariant
            i <= b@.len(),
            forall|j: int| 0 <= j < i ==> texts(a@).contains(#[trigger] texts(b@)[j]),
        decreases b@.len() - i,
    {
        let mut found: bool = false;
        let mut k: usize = 0;
        while k < a.len() && !found
            invariant
                i < b@.len(),
                k <= a@.len(),
                found ==> texts(a@).contains(b@[i as int]@),
                !found ==> forall|j: int| 0 <= j < k ==> (#[trigger] texts(a@)[j]) != b@[i as int]@,
            decreases a@.len() - k,
        {
            if a[k] == b[i] {
                found = true;
                proof {
                    assert(texts(a@)[k as int] == b@[i as int]@);
                }
            }
            k = k + 1;
        }
        proof {
            assert(texts(b@)[i as int] == b@[i as int]@);
        }
        if !found {
            proof {
                assert(texts(b@).to_set().contains(texts(b@)[i as int]));
                assert(!texts(a@).contains(b@[i as int]@));
            }
            return false;
        }
        i = i + 1;
    }
    proof {
        assert forall|t: Seq<char>| texts(b@).to_set().contains(t) implies texts(
            a@,
        ).to_set().contains(t) by {
            let j = choose|j: int| 0 <= j < texts(b@).len() && texts(b@)[j] == t;
            assert(texts(a@).contains(texts(b@)[j]));
        }
    }
    true
}

impl ValueVariants {
    /// Equality of meanings.
    pub fn same(&self, other: &ValueVariants) -> (r: bool)
        ensures
            r == (self@ == other@),
    {
        match (self, other) {
            (ValueVariants::Keyword(a), ValueVariants::Keyword(b)) => *a == *b,
            (ValueVariants::Integer(a), ValueVariants::Integer(b)) => *a == *b,
            (ValueVariants::Bool(a), ValueVariants::Bool(b)) => *a == *b,
            _ => false,
        }
    }
}

impl AnyVariants {
    /// Equality of meanings.
    pub fn same(&self, other: &AnyVariants) -> (r: bool)
        ensures
            r == (self@ == other@),
    {
        match (self, other) {
            (AnyVariants::Keywords(a), AnyVariants::Keywords(b)) => {
                let r = covers_text(a, b) && covers_text(b, a);
                proof {
                    if r {
                        assert(texts(a@).to_set() =~= texts(b@).to_set());
                    }
                }
                r
            },
            (AnyVariants::Integers(a), AnyVariants::Integers(b)) => same_members_i64(a, b),
            _ => false,
        }
    }
}

impl Match {
    /// Equality of meanings.
    pub fn same(&self, other: &Match) -> (r: bool)
        ensures
            r == (self@ == other@),
    {
        match (self, other) {
            (Match::Value(a), Match::Value(b)) => a.same(b),
            (Match::Text(a), Match::Text(b)) => *a == *b,
            (Match::TextAny(a), Match::TextAny(b)) => *a == *b,
            (Match::Phrase(a), Match::Phrase(b)) => *a == *b,
            (Match::Any(a), Match::Any(b)) => a.same(b),
            (Match::Except(a), Match::Except(b)) => a.same(b),
            _ => false,
        }
    }
}

/// Equality of optional shapes.
fn same_shape(a: &Option<GeoShape>, b: &Option<GeoShape>) -> (r: bool)
    ensures
        r == (shape_view(*a) == shape_view(*b)),
{
    match (a, b) {
        (Some(x), Some(y)) => {
            if x.coordinates.len() != y.coordinates.len() {
                return false;
            }
            let mut i: usize = 0;
            while i < x.coordinates.len()
                invariant
                    *a == Some(*x),
                    *b == Some(*y),
                    i <= x.coordinates@.len(),
                    x.coordinates@.len() == y.coordinates@.len(),
                    forall|j: int| 0 <= j < i ==> x.coordinates@[j] == y.coordinates@[j],
                decreases x.coordinates@.len() - i,
            {
                if x.coordinates[i] != y.coordinates[i] {
                    return false;
                }
                i = i + 1;
            }
            proof {
                assert(x.coordinates@ =~= y.coordinates@);
            }
            true
        },
        (None, None) => true,
        _ => false,
    }
}

/// Equality of optional flags.
fn same_flag(a: Option<bool>, b: Option<bool>) -> (r: bool)
    ensures
        r == (a == b),
{
    match (a, b) {
        (Some(x), Some(y)) => x == y,
        (None, None) => true,
        _ => false,
    }
}

/// Equality of optional bounds.
fn same_bound(a: Option<i64>, b: Option<i64>) -> (r: bool)
    ensures
        r == (a == b),
{
    match (a, b) {
        (Some(x), Some(y)) => x == y,
        (None, None) => true,
        _ => false,
    }
}

/// Equality of optional ranges.
fn same_range(a: &Option<RangeBounds>, b: &Option<RangeBounds>) -> (r: bool)
    ensures
        r == (*a == *b),
{
    match (a, b) {
        (Some(x), Some(y)) => same_bound(x.lt, y.lt) && same_bound(x.gt, y.gt) && same_bound(
            x.lte,
            y.lte,
        ) && same_bound(x.gte, y.gte),
        (None, None) => true,
        _ => false,
    }
}

impl FieldCondition {
    /// Equality of meanings.
    pub fn same(&self, other: &FieldCondition) -> (r: bool)
        ensures
            r == (self@ == other@),
    {
        let same_match = match (&self.matching, &other.matching) {
            (Some(a), Some(b)) => a.same(b),
            (None, None) => true,
            _ => false,
        };
        same_match && self.key == other.key && same_range(&self.range, &other.range) && same_shape(
            &self.geo_bounding_box,
            &other.geo_bounding_box,
        ) && same_shape(&self.geo_radius, &other.geo_radius) && same_shape(
            &self.geo_polygon,
            &other.geo_polygon,
        ) && same_range(&self.values_count, &other.values_count) && same_flag(
            self.is_empty,
            other.is_empty,
        ) && same_flag(self.is_null, other.is_null)
    }

    /// A condition that only matches values of a field.
    pub fn new_match(key: PayloadKeyType, matching: Match) -> (field: FieldCondition)
        ensures
            field.key == key,
            field.matching == Some(matching),
            field.range is None,
            field.geo_bounding_box is None,
            field.geo_radius is None,
            field.geo_polygon is None,
            field.values_count is None,
            field.is_empty is None,
            field.is_null is None,
    {
        FieldCondition {
            key,
            matching: Some(matching),
            range: None,
            geo_bounding_box: None,
            geo_radius: None,
            geo_polygon: None,
            values_count: None,
            is_empty: None,
            is_null: None,
        }
    }
}

impl Condition {
    /// Equality of meanings.
    pub fn same(&self, other: &Condition) -> (r: bool)
        ensures
            r == (self.model() == other.model()),
        decreases self,
    {
        match (self, other) {
            (Condition::Field(a), Condition::Field(b)) => a.same(b),
            (Condition::IsEmpty(a), Condition::IsEmpty(b)) => *a == *b,
            (Condition::IsNull(a), Condition::IsNull(b)) => *a == *b,
            (Condition::HasId(a), Condition::HasId(b)) => {
                let r = covers_u64(a, b) && covers_u64(b, a);
                proof {
                    if r {
                        assert(a@.to_set() =~= b@.to_set());
                    }
                }
                r
            },
            (Condition::HasVector(a), Condition::HasVector(b)) => *a == *b,
            (Condition::Nested(ka, fa), Condition::Nested(kb, fb)) => *ka == *kb && fa.same(fb),
            (Condition::Filter(a), Condition::Filter(b)) => a.same(b),
            (Condition::CustomIdChecker(a), Condition::CustomIdChecker(b)) => *a == *b,
            _ => false,
        }
    }
}

/// Equality of lists of conditions.
fn same_conditions(a: &Vec<Condition>, b: &Vec<Condition>) -> (r: bool)
    ensures
        r == (conditions_model(a@) == conditions_model(b@)),
    decreases a,
{
    if a.len() != b.len() {
        proof {
            assert(conditions_model(a@).len() != conditions_model(b@).len());
        }
        return false;
    }
    let mut i: usize = 0;
    while i < a.len()
        invariant
            i <= a@.len(),
            a@.len() == b@.len(),
            forall|j: int| 0 <= j < i ==> (#[trigger] a@[j]).model() == b@[j].model(),
        decreases a@.len() - i,
    {
        if !a[i].same(&b[i]) {
            proof {
                assert(conditions_model(a@)[i as int] != conditions_model(b@)[i as int]);
            }
            return false;
        }
        i = i + 1;
    }
    proof {
        assert(conditions_model(a@) =~= conditions_model(b@));
    }
    true
}

/// Equality of optional clauses.
fn same_clause(a: &Option<Vec<Condition>>, b: &Option<Vec<Condition>>) -> (r: bool)
    ensures
        r == (clause_model(*a) == clause_model(*b)),
    decreases a,
{
    match (a, b) {
        (Some(x), Some(y)) => same_conditions(x, y),
        (None, None) => true,
        _ => false,
    }
}

impl Filter {
    /// A filter without conditions.
    pub fn new() -> (filter: Filter)
        ensures
            filter.should is None,
            filter.min_should is None,
            filter.must is None,
            filter.must_not is None,
    {
        Filter { should: None, min_should: None, must: None, must_not: None }
    }

    /// A filter with one required condition.
    pub fn new_must(condition: Condition) -> (filter: Filter)
        ensures
            filter.should is None,
            filter.min_should is None,
            filter.must is Some && filter.must->0@ == seq![condition],
            filter.must_not is None,
    {
        let mut must: Vec<Condition> = Vec::new();
        must.push(condition);
        proof {
            assert(must@ =~= seq![condition]);
        }
        Filter { should: None, min_should: None, must: Some(must), must_not: None }
    }

    /// Equality of meanings.
    pub fn same(&self, other: &Filter) -> (r: bool)
        ensures
            r == (self.model() == other.model()),
        decreases self,
    {
        let same_min = match (&self.min_should, &other.min_should) {
            (Some(a), Some(b)) => a.min_count == b.min_count && same_conditions(
                &a.conditions,
                &b.conditions,
            ),
            (None, None) => true,
            _ => false,
        };
        same_min && same_clause(&self.should, &other.should) && same_clause(
            &self.must,
            &other.must,
        ) && same_clause(&self.must_not, &other.must_not)
    }
}

/// Copy a list of texts.
fn copied_texts(list: &Vec<String>) -> (r: Vec<String>)
    ensures
        texts(r@) == texts(list@),
{
    let mut r: Vec<String> = Vec::new();
    let mut i: usize = 0;
    while i < list.len()
        invariant
            i <= list@.len(),
            r@.len() == i,
            forall|j: int| 0 <= j < i ==> (#[trigger] r@[j])@ == list@[j]@,
        decreases list@.len() - i,
    {
        r.push(list[i].as_str().to_owned());
        i = i + 1;
    }
    proof {
        assert(texts(r@) =~= texts(list@));
    }
    r
}

/// Copy a list of numbers.
fn copied_i64(list: &Vec<i64>) -> (r: Vec<i64>)
    ensures
        r@ == list@,
{
    let mut r: Vec<i64> = Vec::new();
    let mut i: usize = 0;
    while i < list.len()
        invariant
            i <= list@.len(),
            r@ == list@.take(i as int),
        decreases list@.len() - i,
    {
        r.push(list[i]);
        proof {
            assert(list@.take(i + 1) =~= list@.take(i as int).push(list@[i as int]));
        }
        i = i + 1;
    }
    proof {
        assert(list@.take(i as int) =~= list@);
    }
    r
}

/// Copy a list of identifiers.
fn copied_u64(list: &Vec<u64>) -> (r: Vec<u64>)
    ensures
        r@ == list@,
{
    let mut r: Vec<u64> = Vec::new();
    let mut i: usize = 0;
    while i < list.len()
        invariant
            i <= list@.len(),
            r@ == list@.take(i as int),
        decreases list@.len() - i,
    {
        r.push(list[i]);
        proof {
            assert(list@.take(i + 1) =~= list@.take(i as int).push(list@[i as int]));
        }
        i = i + 1;
    }
    proof {
        assert(list@.take(i as int) =~= list@);
    }
    r
}

/// Copy an optional shape.
fn copied_shape(shape: &Option<GeoShape>) -> (r: Option<GeoShape>)
    ensures
        shape_view(r) == shape_view(*shape),
{
    match shape {
        Some(shape) => Some(GeoShape { coordinates: copied_i64(&shape.coordinates) }),
        None => None,
    }
}

impl AnyVariants {
    fn copied(&self) -> (r: AnyVariants)
        ensures
            r@ == self@,
    {
        match self {
            AnyVariants::Keywords(list) => AnyVariants::Keywords(copied_texts(list)),
            AnyVariants::Integers(list) => AnyVariants::Integers(copied_i64(list)),
        }
    }
}

impl Match {
    fn copied(&self) -> (r: Match)
        ensures
            r@ == self@,
    {
        match self {
            Match::Value(ValueVariants::Keyword(text)) => Match::Value(
                ValueVariants::Keyword(text.as_str().to_owned()),
            ),
            Match::Value(ValueVariants::Integer(value)) => Match::Value(
                ValueVariants::Integer(*value),
            ),
            Match::Value(ValueVariants::Bool(value)) => Match::Value(ValueVariants::Bool(*value)),
            Match::Text(text) => Match::Text(text.as_str().to_owned()),
            Match::TextAny(text) => Match::TextAny(text.as_str().to_owned()),
            Match::Phrase(text) => Match::Phrase(text.as_str().to_owned()),
            Match::Any(any) => Match::Any(any.copied()),
            Match::Except(any) => Match::Except(any.copied()),
        }
    }
}

impl FieldCondition {
    fn copied(&self) -> (r: FieldCondition)
        ensures
            r@ == self@,
    {
        FieldCondition {
            key: self.key.as_str().to_owned(),
            matching: match &self.matching {
                Some(matching) => Some(matching.copied()),
                None => None,
            },
            range: self.range,
            geo_bounding_box: copied_shape(&self.geo_bounding_box),
            geo_radius: copied_shape(&self.geo_radius),
            geo_polygon: copied_shape(&self.geo_polygon),
            values_count: self.values_count,
            is_empty: self.is_empty,
            is_null: self.is_null,
        }
    }
}

impl Condition {
    fn copied(&self) -> (r: Condition)
        ensures
            r.model() == self.model(),
        decreases self,
    {
        match self {
            Condition::Field(field) => Condition::Field(field.copied()),
            Condition::IsEmpty(key) => Condition::IsEmpty(key.as_str().to_owned()),
            Condition::IsNull(key) => Condition::IsNull(key.as_str().to_owned()),
            Condition::HasId(ids) => Condition::HasId(copied_u64(ids)),
            Condition::HasVector(name) => Condition::HasVector(name.as_str().to_owned()),
            Condition::Nested(key, filter) => Condition::Nested(
                key.as_str().to_owned(),
                Box::new(filter.copied()),
            ),
            Condition::Filter(filter) => Condition::Filter(Box::new(filter.copied())),
            Condition::CustomIdChecker(id) => Condition::CustomIdChecker(*id),
        }
    }
}

/// Copy a list of conditions.
fn copied_conditions(list: &Vec<Condition>) -> (r: Vec<Condition>)
    ensures
        conditions_model(r@) == conditions_model(list@),
    decreases list,
{
    let mut r: Vec<Condition> = Vec::new();
    let mut i: usize = 0;
    while i < list.len()
        invariant
            i <= list@.len(),
            r@.len() == i,
            forall|j: int| 0 <= j < i ==> (#[trigger] r@[j]).model() == list@[j].model(),
        decreases list@.len() - i,
    {
        r.push(list[i].copied());
        i = i + 1;
    }
    proof {
        assert(conditions_model(r@) =~= conditions_model(list@));
    }
    r
}

/// Copy an optional clause.
fn copied_clause(clause: &Option<Vec<Condition>>) -> (r: Option<Vec<Condition>>)
    ensures
        clause_model(r) == clause_model(*clause),
    decreases clause,
{
    match clause {
        Some(list) => Some(copied_conditions(list)),
        None => None,
    }
}

impl Filter {
    /// A filter with the same meaning.
    pub fn copied(&self) -> (r: Filter)
        ensures
            r.model() == self.model(),
        decreases self,
    {
        let min_should = match &self.min_should {
            Some(min_should) => Some(
                MinShould {
                    conditions: copied_conditions(&min_should.conditions),
                    min_count: min_should.min_count,
                },
            ),
            None => None,
        };
        Filter {
            should: copied_clause(&self.should),
            min_should,
            must: copied_clause(&self.must),
            must_not: copied_clause(&self.must_not),
        }
    }
}

} // verus!

//! Locations inside nested values, and the errors attributed to them.
use vstd::prelude::*;

verus! {

/// One step of a path into a nested value.
#[derive(Debug, PartialEq, Eq)]
pub enum LocItem {
    /// The entry of a mapping under this key.
    Key(String),
    /// The element of a sequence at this index.
    Index(usize),
}

/// The mathematical model of a [`LocItem`].
pub ghost enum LocItemView {
    Key(Seq<char>),
    Index(usize),
}

impl View for LocItem {
    type V = LocItemView;

    open spec fn view(&self) -> LocItemView {
        match self {
            LocItem::Key(k) => LocItemView::Key(k@),
            LocItem::Index(i) => LocItemView::Index(*i),
        }
    }
}

impl LocItem {
    /// An independent copy of this segment.
    pub fn copied(&self) -> (r: LocItem)
        ensures
            r@ == self@,
    {
        match self {
            LocItem::Key(k) => LocItem::Key(k.clone()),
            LocItem::Index(i) => LocItem::Index(*i),
        }
    }
}

/// The path from the validation root to the value being validated.
pub struct Location {
    items: Vec<LocItem>,
}

impl View for Location {
    type V = Seq<LocItemView>;

    closed spec fn view(&self) -> Seq<LocItemView> {
        self.items@.map_values(|item: LocItem| item@)
    }
}

impl Location {
    /// The empty path: the root of the value.
    pub fn new() -> (r: Location)
        ensures
            r@ == Seq::<LocItemView>::empty(),
    {
        let r = Location { items: Vec::new() };
        assert(r@ =~= Seq::<LocItemView>::empty());
        r
    }

    /// An independent copy of this path.
    pub fn copied(&self) -> (r: Location)
        ensures
            r@ == self@,
    {
        let mut items: Vec<LocItem> = Vec::new();
        let mut i: usize = 0;
        while i < self.items.len()
            invariant
                i <= self.items@.len(),
                items@.len() == i,
                forall|j: int| 0 <= j < i ==> (#[trigger] items@[j])@ == self.items@[j]@,
            decreases self.items@.len() - i,
        {
            items.push(self.items[i].copied());
            i = i + 1;
        }
        let r = Location { items };
        assert(r@ =~= self@);
        r
    }

    /// A new path, one segment deeper than this one; this path is unchanged.
    pub fn push(&self, item: LocItem) -> (r: Location)
        ensures
            r@ == self@.push(item@),
    {
        let mut r = self.copied();
        r.items.push(item);
        assert(r@ =~= self@.push(item@)) by {
            assert(r.items@[self@.len() as int] == item);
        }
        r
    }

    /// The number of segments.
    pub fn len(&self) -> (r: usize)
        ensures
            r == self@.len(),
    {
        self.items.len()
    }

    /// The segment at `index`, counted from the root.
    pub fn get(&self, index: usize) -> (r: &LocItem)
        requires
            index < self@.len(),
        ensures
            r@ == self@[index as int],
    {
        &self.items[index]
    }
}

/// A failure found while validating a value, and where it was found.
pub struct ValidationError {
    pub location: Location,
    pub message: String,
}

/// The mathematical model of a [`ValidationError`].
pub ghost struct ErrorView {
    pub location: Seq<LocItemView>,
    pub message: Seq<char>,
}

impl View for ValidationError {
    type V = ErrorView;

    open spec fn view(&self) -> ErrorView {
        ErrorView { location: self.location@, message: self.message@ }
    }
}

/// The models of a sequence of validation errors, in order.
pub open spec fn errors_view(errors: Seq<ValidationError>) -> Seq<ErrorView> {
    errors.map_values(|e: ValidationError| e@)
}

/// The model of the outcome of a validation.
pub open spec fn outcome_view(r: Result<crate::value::Value, Vec<ValidationError>>) -> Result<
    crate::value::ValueView,
    Seq<ErrorView>,
> {
    match r {
        Ok(v) => Ok(v@),
        Err(errors) => Err(errors_view(errors@)),
    }
}

/// A single error at `loc` with the given message.
pub(crate) fn single_error(loc: &Location, message: &str) -> (r: Vec<ValidationError>)
    ensures
        errors_view(r@) == seq![ErrorView { location: loc@, message: message@ }],
{
    let mut r: Vec<ValidationError> = Vec::new();
    r.push(ValidationError { location: loc.copied(), message: message.to_owned() });
    assert(errors_view(r@) =~= seq![ErrorView { location: loc@, message: message@ }]);
    r
}

/// `a` followed by `b`.
pub fn join(a: &str, b: &str) -> (r: String)
    ensures
        r@ == a@ + b@,
{
    let s = a.to_owned();
    s.concat(b)
}

} // verus!

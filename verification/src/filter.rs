use vstd::prelude::*;
use crate::error::AppError;
use crate::names::{copy_of, have_common_name, names, share_a_name};
use crate::time::{Day, Timestamp};

verus! {

/// What a caller may ask of a query. Every part is optional and narrows the
/// result on its own; a part that is absent leaves the result as it is.
#[derive(Debug)]
pub struct Filter {
    /// Keep the scores created on this day or later.
    pub start: Option<Day>,
    /// Keep the scores created before this day.
    pub end: Option<Day>,
    /// Keep the scores that carry at least one of these tags. An empty list
    /// asks for nothing.
    pub include_tags: Vec<String>,
    /// Keep the scores that carry no tag at all.
    pub untagged_only: bool,
}

/// A filter as a mathematical value.
pub struct FilterView {
    pub start: Option<Day>,
    pub end: Option<Day>,
    pub include_tags: Seq<Seq<char>>,
    pub untagged_only: bool,
}

/// One condition on a score. A query is the conjunction of its constraints.
#[derive(Debug)]
pub enum Constraint {
    /// Created on the given day or later.
    NotBefore(Day),
    /// Created before the given day.
    Before(Day),
    /// Carries at least one of the given tags.
    AnyOf(Vec<String>),
    /// Carries no tag.
    Untagged,
}

/// A constraint as a mathematical value.
pub enum ConstraintView {
    NotBefore(Day),
    Before(Day),
    AnyOf(Seq<Seq<char>>),
    Untagged,
}

impl View for Filter {
    type V = FilterView;

    open spec fn view(&self) -> FilterView {
        FilterView {
            start: self.start,
            end: self.end,
            include_tags: names(self.include_tags@),
            untagged_only: self.untagged_only,
        }
    }
}

impl View for Constraint {
    type V = ConstraintView;

    open spec fn view(&self) -> ConstraintView {
        match *self {
            Constraint::NotBefore(day) => ConstraintView::NotBefore(day),
            Constraint::Before(day) => ConstraintView::Before(day),
            Constraint::AnyOf(list) => ConstraintView::AnyOf(names(list@)),
            Constraint::Untagged => ConstraintView::Untagged,
        }
    }
}

impl ConstraintView {
    /// Whether a score created at `created` and carrying `tags` meets the
    /// constraint.
    pub open spec fn holds(self, created: Timestamp, tags: Seq<Seq<char>>) -> bool {
        match self {
            ConstraintView::NotBefore(day) => created.day >= day.number,
            ConstraintView::Before(day) => created.day < day.number,
            ConstraintView::AnyOf(wanted) => share_a_name(tags, wanted),
            ConstraintView::Untagged => tags.len() == 0,
        }
    }
}

/// Whether a score meets every constraint of a list.
pub open spec fn all_hold(
    constraints: Seq<ConstraintView>,
    created: Timestamp,
    tags: Seq<Seq<char>>,
) -> bool {
    forall|i: int| 0 <= i < constraints.len() ==> (#[trigger] constraints[i]).holds(created, tags)
}

/// The constraints of a list, each as its mathematical value.
pub open spec fn constraint_views(list: Seq<Constraint>) -> Seq<ConstraintView> {
    Seq::new(list.len(), |i: int| list[i]@)
}

impl FilterView {
    /// The filter that asks for nothing.
    pub open spec fn unfiltered() -> FilterView {
        FilterView { start: None, end: None, include_tags: seq![], untagged_only: false }
    }

    /// The filter that asks for untagged scores and nothing else.
    pub open spec fn untagged() -> FilterView {
        FilterView { start: None, end: None, include_tags: seq![], untagged_only: true }
    }

    /// The filter that asks for the scores of `day` and later, and nothing
    /// else.
    pub open spec fn since(day: Day) -> FilterView {
        FilterView { start: Some(day), end: None, include_tags: seq![], untagged_only: false }
    }

    /// The filter that asks for the scores before `day`, and nothing else.
    pub open spec fn until(day: Day) -> FilterView {
        FilterView { start: None, end: Some(day), include_tags: seq![], untagged_only: false }
    }

    /// A filter may not ask for tags and for untagged scores at once.
    pub open spec fn is_consistent(self) -> bool {
        !(self.include_tags.len() > 0 && self.untagged_only)
    }

    /// Whether the filter lets a score through: one created at `created`
    /// and carrying `tags`.
    pub open spec fn admits(self, created: Timestamp, tags: Seq<Seq<char>>) -> bool {
        &&& self.start matches Some(day) ==> created.day >= day.number
        &&& self.end matches Some(day) ==> created.day < day.number
        &&& self.include_tags.len() > 0 ==> share_a_name(tags, self.include_tags)
        &&& self.untagged_only ==> tags.len() == 0
    }

    /// The lower date bound alone, or nothing.
    pub open spec fn start_part(self) -> Seq<ConstraintView> {
        match self.start {
            Some(day) => seq![ConstraintView::NotBefore(day)],
            None => seq![],
        }
    }

    /// The upper date bound alone, or nothing.
    pub open spec fn end_part(self) -> Seq<ConstraintView> {
        match self.end {
            Some(day) => seq![ConstraintView::Before(day)],
            None => seq![],
        }
    }

    /// The tag group alone, or nothing.
    pub open spec fn tag_part(self) -> Seq<ConstraintView> {
        if self.include_tags.len() > 0 {
            seq![ConstraintView::AnyOf(self.include_tags)]
        } else {
            seq![]
        }
    }

    /// The untagged condition alone, or nothing.
    pub open spec fn untagged_part(self) -> Seq<ConstraintView> {
        if self.untagged_only {
            seq![ConstraintView::Untagged]
        } else {
            seq![]
        }
    }

    /// The constraints that the filter stands for, in the order in which
    /// they are composed: lower date bound, upper date bound, tag group,
    /// untagged.
    pub open spec fn constraints(self) -> Seq<ConstraintView> {
        self.start_part() + self.end_part() + self.tag_part() + self.untagged_part()
    }

    /// A score meets all the constraints of a filter exactly when the filter
    /// admits it.
    pub proof fn constraints_mean_admits(self, created: Timestamp, tags: Seq<Seq<char>>)
        ensures
            all_hold(self.constraints(), created, tags) <==> self.admits(created, tags),
    {
        let cs = self.constraints();
        let a = self.start_part();
        let b = self.end_part();
        let c = self.tag_part();
        let d = self.untagged_part();
        if all_hold(cs, created, tags) {
            if self.start is Some {
                assert(cs[0] == a[0]);
            }
            if self.end is Some {
                assert(cs[a.len() as int] == b[0]);
            }
            if self.include_tags.len() > 0 {
                assert(cs[(a.len() + b.len()) as int] == c[0]);
            }
            if self.untagged_only {
                assert(cs[(a.len() + b.len() + c.len()) as int] == d[0]);
            }
        }
        if self.admits(created, tags) {
            assert forall|i: int| 0 <= i < cs.len() implies (#[trigger] cs[i]).holds(
                created,
                tags,
            ) by {
                if i < a.len() {
                    assert(cs[i] == a[i]);
                } else if i < a.len() + b.len() {
                    assert(cs[i] == b[i - a.len()]);
                } else if i < a.len() + b.len() + c.len() {
                    assert(cs[i] == c[i - a.len() - b.len()]);
                } else {
                    assert(cs[i] == d[i - a.len() - b.len() - c.len()]);
                }
            }
        }
    }
}

impl Constraint {
    /// Tests one constraint on a score.
    pub fn holds_for(&self, created: &Timestamp, tags: &Vec<String>) -> (r: bool)
        ensures
            r == self@.holds(*created, names(tags@)),
    {
        match self {
            Constraint::NotBefore(day) => created.day >= day.number,
            Constraint::Before(day) => created.day < day.number,
            Constraint::AnyOf(wanted) => have_common_name(tags, wanted),
            Constraint::Untagged => tags.len() == 0,
        }
    }
}

/// Tests a score against every constraint of a list.
pub fn meets_all(constraints: &Vec<Constraint>, created: &Timestamp, tags: &Vec<String>) -> (r:
    bool)
    ensures
        r == all_hold(constraint_views(constraints@), *created, names(tags@)),
{
    let mut i: usize = 0;
    while i < constraints.len()
        invariant
            i <= constraints.len(),
            forall|k: int|
                0 <= k < i ==> (#[trigger] constraint_views(constraints@)[k]).holds(
                    *created,
                    names(tags@),
                ),
        decreases constraints.len() - i,
    {
        if !constraints[i].holds_for(created, tags) {
            assert(!constraint_views(constraints@)[i as int].holds(*created, names(tags@)));
            return false;
        }
        i += 1;
    }
    true
}

impl Filter {
    /// Whether the filter asks for nothing contradictory.
    pub fn is_consistent(&self) -> (r: bool)
        ensures
            r == self@.is_consistent(),
    {
        !(self.include_tags.len() > 0 && self.untagged_only)
    }

    /// Checks the filter before anything is read: a filter that asks for
    /// tags and for untagged scores at once is a configuration error.
    pub fn validate(&self) -> (r: Result<(), AppError>)
        ensures
            self@.is_consistent() <==> r is Ok,
            r matches Err(e) ==> e is Configuration,
    {
        if self.is_consistent() {
            Ok(())
        } else {
            Err(
                AppError::Configuration(
                    "a tag filter and the untagged-only option exclude each other".to_owned(),
                ),
            )
        }
    }

    /// Checks the filter and composes its constraints. A filter that asks
    /// for tags and for untagged scores at once is a configuration error;
    /// every other filter gives its constraints in their order.
    pub fn compile(&self) -> (r: Result<Vec<Constraint>, AppError>)
        ensures
            self@.is_consistent() <==> r is Ok,
            r matches Err(e) ==> e is Configuration,
            r matches Ok(list) ==> constraint_views(list@) == self@.constraints(),
    {
        match self.validate() {
            Ok(()) => {},
            Err(e) => {
                return Err(e);
            },
        }
        let mut list: Vec<Constraint> = Vec::new();
        if let Some(day) = self.start {
            list.push(Constraint::NotBefore(day));
        }
        assert(constraint_views(list@) =~= self@.start_part());
        if let Some(day) = self.end {
            list.push(Constraint::Before(day));
        }
        assert(constraint_views(list@) =~= self@.start_part() + self@.end_part());
        if self.include_tags.len() > 0 {
            list.push(Constraint::AnyOf(copy_of(&self.include_tags)));
        }
        assert(constraint_views(list@) =~= self@.start_part() + self@.end_part()
            + self@.tag_part());
        if self.untagged_only {
            list.push(Constraint::Untagged);
        }
        assert(constraint_views(list@) =~= self@.constraints());
        Ok(list)
    }
}

} // verus!

//! What a session is asked to show: the attributes to read and how to
//! group and display them.

use vstd::prelude::*;
use vstd::string::StringExecFns;
use crate::text::texts_of;

verus! {

/// The kind of value that an attribute is declared to hold.
#[derive(Clone, Copy, Debug, PartialEq, Eq, Structural)]
pub enum InputAttributeType {
    Integer,
    Boolean,
    String,
    DateTime,
}

/// One attribute to read from every record.
#[derive(Debug)]
pub struct InputAttributeSpec {
    pub name: String,
    pub attr_type: InputAttributeType,
}

/// The attributes to read, the attributes to group by, the attributes to
/// show beside them, and the attribute to draw timelines from.
#[derive(Debug)]
pub struct InputSpec {
    pub attrs: Vec<InputAttributeSpec>,
    pub group_by: Vec<String>,
    pub show_in_grouped: Vec<String>,
    pub timeline_column: Option<String>,
}

/// Why a specification cannot be used.
#[derive(Debug)]
pub enum SpecError {
    /// Two attributes have the same name.
    Duplicates,
    /// A grouping attribute is not among the attributes.
    MissingGrouping(String),
    /// An attribute to show in grouped mode is not among the attributes.
    MissingShown(String),
    /// The timeline attribute is not among the attributes.
    MissingTimeline(String),
}

/// The names of a list of attributes.
pub open spec fn attribute_names(attrs: Seq<InputAttributeSpec>) -> Seq<Seq<char>> {
    Seq::new(attrs.len(), |k: int| attrs[k].name@)
}

/// The position of the first of `wanted` that is not among `names`.
pub open spec fn first_missing(names: Seq<Seq<char>>, wanted: Seq<Seq<char>>) -> Option<int> {
    if exists|k: int| 0 <= k < wanted.len() && !names.contains(#[trigger] wanted[k]) {
        Some(
            choose|k: int|
                0 <= k < wanted.len() && !names.contains(#[trigger] wanted[k]) && forall|j: int|
                    0 <= j < k ==> names.contains(#[trigger] wanted[j]),
        )
    } else {
        None
    }
}

/// The name of the timeline attribute, as a list of none or one.
pub open spec fn timeline_names(timeline_column: Option<String>) -> Seq<Seq<char>> {
    match timeline_column {
        Some(name) => seq![name@],
        None => Seq::empty(),
    }
}

/// A defect of a specification, with the position of the offending name
/// in its list.
pub enum Defect {
    /// Two attributes share a name.
    Duplicates,
    /// The grouping attribute at this position is not declared.
    Grouping(int),
    /// The shown attribute at this position is not declared.
    Shown(int),
    /// The timeline attribute is not declared.
    Timeline,
}

/// The first defect of a specification: a name that two attributes share,
/// else the first grouping attribute that is not declared, else the first
/// shown attribute that is not declared, else the timeline attribute if it
/// is not declared.
pub open spec fn spec_defect(spec: InputSpec) -> Option<Defect> {
    let names = attribute_names(spec.attrs@);
    if !names.no_duplicates() {
        Some(Defect::Duplicates)
    } else {
        match first_missing(names, texts_of(spec.group_by@)) {
            Some(k) => Some(Defect::Grouping(k)),
            None => match first_missing(names, texts_of(spec.show_in_grouped@)) {
                Some(k) => Some(Defect::Shown(k)),
                None => match first_missing(names, timeline_names(spec.timeline_column)) {
                    Some(_) => Some(Defect::Timeline),
                    None => None,
                },
            },
        }
    }
}

/// The first of `wanted` that is missing from `names` is at `k` when all
/// before it are among `names` and it is not.
proof fn lemma_first_missing(names: Seq<Seq<char>>, wanted: Seq<Seq<char>>, k: int)
    requires
        0 <= k <= wanted.len(),
        forall|j: int| 0 <= j < k ==> names.contains(#[trigger] wanted[j]),
        k < wanted.len() ==> !names.contains(wanted[k]),
    ensures
        first_missing(names, wanted) == if k < wanted.len() {
            Some(k)
        } else {
            None::<int>
        },
{
    if k < wanted.len() {
        let found = choose|f: int|
            0 <= f < wanted.len() && !names.contains(#[trigger] wanted[f]) && forall|j: int|
                0 <= j < f ==> names.contains(#[trigger] wanted[j]);
        if found < k {
            assert(names.contains(wanted[found]));
        }
        if k < found {
            assert(names.contains(wanted[k]));
        }
    }
}

impl InputSpec {
    /// Whether an attribute is called `name`.
    fn declares(&self, name: &String) -> (known: bool)
        ensures
            known == attribute_names(self.attrs@).contains(name@),
    {
        let ghost names = attribute_names(self.attrs@);
        let mut k: usize = 0;
        while k < self.attrs.len()
            invariant
                k <= self.attrs.len(),
                names == attribute_names(self.attrs@),
                forall|j: int| 0 <= j < k ==> #[trigger] names[j] != name@,
            decreases self.attrs.len() - k,
        {
            assert(names[k as int] == self.attrs[k as int].name@);
            if self.attrs[k].name == *name {
                return true;
            }
            k += 1;
        }
        false
    }

    /// The position of the first of `wanted` that no attribute is called.
    fn first_undeclared(&self, wanted: &Vec<String>) -> (missing: Option<usize>)
        ensures
            match missing {
                Some(k) => first_missing(attribute_names(self.attrs@), texts_of(wanted@)) == Some(
                    k as int,
                ) && k < wanted.len(),
                None => first_missing(attribute_names(self.attrs@), texts_of(wanted@)) is None,
            },
    {
        let ghost names = attribute_names(self.attrs@);
        let ghost wants = texts_of(wanted@);
        let mut k: usize = 0;
        while k < wanted.len()
            invariant
                k <= wanted.len(),
                names == attribute_names(self.attrs@),
                wants == texts_of(wanted@),
                forall|j: int| 0 <= j < k ==> names.contains(#[trigger] wants[j]),
            decreases wanted.len() - k,
        {
            assert(wants[k as int] == wanted[k as int]@);
            if !self.declares(&wanted[k]) {
                proof {
                    lemma_first_missing(names, wants, k as int);
                }
                return Some(k);
            }
            k += 1;
        }
        proof {
            lemma_first_missing(names, wants, k as int);
        }
        None
    }

    /// Whether two attributes share a name.
    fn has_duplicates(&self) -> (found: bool)
        ensures
            found == !attribute_names(self.attrs@).no_duplicates(),
    {
        let ghost names = attribute_names(self.attrs@);
        let mut a: usize = 0;
        while a < self.attrs.len()
            invariant
                a <= self.attrs.len(),
                names == attribute_names(self.attrs@),
                forall|i: int, j: int| 0 <= i < a && i < j < names.len() ==> names[i] != names[j],
            decreases self.attrs.len() - a,
        {
            let mut b: usize = a + 1;
            while b < self.attrs.len()
                invariant
                    a < b <= self.attrs.len(),
                    names == attribute_names(self.attrs@),
                    forall|j: int| a < j < b ==> names[a as int] != #[trigger] names[j],
                decreases self.attrs.len() - b,
            {
                assert(names[a as int] == self.attrs[a as int].name@);
                assert(names[b as int] == self.attrs[b as int].name@);
                if self.attrs[a].name == self.attrs[b].name {
                    return true;
                }
                b += 1;
            }
            a += 1;
        }
        assert forall|i: int, j: int|
            0 <= i < names.len() && 0 <= j < names.len() && i != j implies names[i] != names[j] by {
            if i < j {
                assert(names[i] != names[j]);
            } else {
                assert(names[j] != names[i]);
            }
        }
        false
    }

    /// Checks the specification: no two attributes share a name, and every
    /// attribute that is grouped by, shown or drawn as a timeline is
    /// declared.
    pub fn validate(&self) -> (r: Result<(), SpecError>)
        ensures
            match r {
                Ok(_) => spec_defect(*self) is None,
                Err(SpecError::Duplicates) => spec_defect(*self) == Some(Defect::Duplicates),
                Err(SpecError::MissingGrouping(name)) => exists|k: int|
                    0 <= k < self.group_by.len() && spec_defect(*self) == Some(Defect::Grouping(k))
                        && name@ == #[trigger] self.group_by[k]@,
                Err(SpecError::MissingShown(name)) => exists|k: int|
                    0 <= k < self.show_in_grouped.len() && spec_defect(*self) == Some(
                        Defect::Shown(k),
                    ) && name@ == #[trigger] self.show_in_grouped[k]@,
                Err(SpecError::MissingTimeline(name)) => spec_defect(*self) == Some(
                    Defect::Timeline,
                ) && self.timeline_column == Some(name),
            },
    {
        let ghost names = attribute_names(self.attrs@);
        if self.has_duplicates() {
            return Err(SpecError::Duplicates);
        }
        match self.first_undeclared(&self.group_by) {
            Some(k) => {
                let name = self.group_by[k].clone();
                assert(name@ == self.group_by[k as int]@);
                return Err(SpecError::MissingGrouping(name));
            },
            None => {},
        }
        match self.first_undeclared(&self.show_in_grouped) {
            Some(k) => {
                let name = self.show_in_grouped[k].clone();
                assert(name@ == self.show_in_grouped[k as int]@);
                return Err(SpecError::MissingShown(name));
            },
            None => {},
        }
        match &self.timeline_column {
            Some(wanted) => {
                let ghost wants = timeline_names(self.timeline_column);
                assert(wants[0] == wanted@);
                if !self.declares(wanted) {
                    proof {
                        lemma_first_missing(names, wants, 0);
                    }
                    return Err(SpecError::MissingTimeline(wanted.clone()));
                }
                proof {
                    lemma_first_missing(names, wants, 1);
                }
            },
            None => {
                proof {
                    lemma_first_missing(names, timeline_names(self.timeline_column), 0);
                }
            },
        }
        Ok(())
    }

    /// The names of the attributes, in order.
    pub fn attribute_names(&self) -> (names: Vec<String>)
        ensures
            texts_of(names@) == attribute_names(self.attrs@),
    {
        let mut names: Vec<String> = Vec::new();
        let mut k: usize = 0;
        while k < self.attrs.len()
            invariant
                k <= self.attrs.len(),
                names.len() == k,
                forall|j: int| 0 <= j < k ==> (#[trigger] names[j])@ == self.attrs[j].name@,
            decreases self.attrs.len() - k,
        {
            names.push(self.attrs[k].name.clone());
            k += 1;
        }
        assert(texts_of(names@) =~= attribute_names(self.attrs@));
        names
    }
}

impl SpecError {
    /// The message of the error.
    pub fn message(&self) -> (text: String)
        ensures
            text@ == match self {
                SpecError::Duplicates => "spec contains duplicates"@,
                SpecError::MissingGrouping(name) => "missing grouping attribute "@ + name@
                    + " in spec"@,
                SpecError::MissingShown(name) => "missing attribute "@ + name@
                    + " requested to show in grouped mode"@,
                SpecError::MissingTimeline(name) => "missing timeline attribute "@ + name@
                    + " in spec"@,
            },
    {
        match self {
            SpecError::Duplicates => String::from_str("spec contains duplicates"),
            SpecError::MissingGrouping(name) => String::from_str(
                "missing grouping attribute ",
            ).concat(name.as_str()).concat(" in spec"),
            SpecError::MissingShown(name) => String::from_str("missing attribute ").concat(
                name.as_str(),
            ).concat(" requested to show in grouped mode"),
            SpecError::MissingTimeline(name) => String::from_str(
                "missing timeline attribute ",
            ).concat(name.as_str()).concat(" in spec"),
        }
    }
}

} // verus!

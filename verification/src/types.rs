//! The typed document tree: values, evaluations, actions and metadata, each
//! with the mathematical view that the contracts speak of.

use crate::decimal::{Decimal, DecimalView};
use crate::text::{lowered, same_text, to_lowercase, view_opt, views};
use vstd::prelude::*;

verus! {

/// Optional notes on who wrote a model and when.
#[derive(Debug, Default, Clone, PartialEq)]
pub struct Metadata {
    pub created_by: Option<String>,
    pub created_at: Option<String>,
    pub last_updated: Option<String>,
    pub notes: Option<String>,
}

/// What metadata stands for.
pub struct MetadataView {
    pub created_by: Option<Seq<char>>,
    pub created_at: Option<Seq<char>>,
    pub last_updated: Option<Seq<char>>,
    pub notes: Option<Seq<char>>,
}

impl View for Metadata {
    type V = MetadataView;

    open spec fn view(&self) -> MetadataView {
        MetadataView {
            created_by: view_opt(self.created_by),
            created_at: view_opt(self.created_at),
            last_updated: view_opt(self.last_updated),
            notes: view_opt(self.notes),
        }
    }
}

/// The kinds of evaluation.
#[derive(Debug, Clone, Copy, PartialEq, Eq, Structural)]
pub enum EvaluationType {
    Comparison,
    Logical,
    Aggregation,
    TimeBased,
    Conditional,
}

/// The kind that a lowercase name stands for, if any.
pub open spec fn evaluation_type_named(name: Seq<char>) -> Option<EvaluationType> {
    if name == "comparison"@ {
        Some(EvaluationType::Comparison)
    } else if name == "logical"@ {
        Some(EvaluationType::Logical)
    } else if name == "aggregation"@ {
        Some(EvaluationType::Aggregation)
    } else if name == "time-based"@ {
        Some(EvaluationType::TimeBased)
    } else if name == "conditional"@ {
        Some(EvaluationType::Conditional)
    } else {
        None
    }
}

impl EvaluationType {
    /// The lowercase name of the kind.
    pub open spec fn name(self) -> Seq<char> {
        match self {
            EvaluationType::Comparison => "comparison"@,
            EvaluationType::Logical => "logical"@,
            EvaluationType::Aggregation => "aggregation"@,
            EvaluationType::TimeBased => "time-based"@,
            EvaluationType::Conditional => "conditional"@,
        }
    }

    /// The kind that `lowered`, a name already in lowercase, stands for.
    pub fn from_lowercase(lowered: &str) -> (r: Option<EvaluationType>)
        ensures
            r == evaluation_type_named(lowered@),
    {
        if same_text(lowered, "comparison") {
            Some(EvaluationType::Comparison)
        } else if same_text(lowered, "logical") {
            Some(EvaluationType::Logical)
        } else if same_text(lowered, "aggregation") {
            Some(EvaluationType::Aggregation)
        } else if same_text(lowered, "time-based") {
            Some(EvaluationType::TimeBased)
        } else if same_text(lowered, "conditional") {
            Some(EvaluationType::Conditional)
        } else {
            None
        }
    }

    /// The kind that `s` names, whatever its case.
    pub fn from_str(s: &str) -> (r: Result<EvaluationType, &'static str>)
        ensures
            match r {
                Ok(t) => evaluation_type_named(lowered(s@)) == Some(t),
                Err(msg) => evaluation_type_named(lowered(s@)) is None && msg@
                    == "Invalid evaluation type"@,
            },
    {
        let name = to_lowercase(s);
        match EvaluationType::from_lowercase(name.as_str()) {
            Some(t) => Ok(t),
            None => Err("Invalid evaluation type"),
        }
    }

    /// The lowercase name of the kind.
    pub fn to_string(&self) -> (s: String)
        ensures
            s@ == self.name(),
    {
        match self {
            EvaluationType::Comparison => "comparison".to_string(),
            EvaluationType::Logical => "logical".to_string(),
            EvaluationType::Aggregation => "aggregation".to_string(),
            EvaluationType::TimeBased => "time-based".to_string(),
            EvaluationType::Conditional => "conditional".to_string(),
        }
    }
}

/// The ways of aggregating.
#[derive(Debug, Clone, Copy, PartialEq, Eq, Structural)]
pub enum Aggregation {
    SUM,
    COUNT,
    AVG,
    MIN,
    MAX,
    STDDEV,
}

/// The aggregation that a name stands for, if any.
pub open spec fn aggregation_named(name: Seq<char>) -> Option<Aggregation> {
    if name == "SUM"@ {
        Some(Aggregation::SUM)
    } else if name == "COUNT"@ {
        Some(Aggregation::COUNT)
    } else if name == "AVG"@ {
        Some(Aggregation::AVG)
    } else if name == "MIN"@ {
        Some(Aggregation::MIN)
    } else if name == "MAX"@ {
        Some(Aggregation::MAX)
    } else if name == "STDDEV"@ {
        Some(Aggregation::STDDEV)
    } else {
        None
    }
}

impl Aggregation {
    /// The name of the aggregation, in capitals.
    pub open spec fn name(self) -> Seq<char> {
        match self {
            Aggregation::SUM => "SUM"@,
            Aggregation::COUNT => "COUNT"@,
            Aggregation::AVG => "AVG"@,
            Aggregation::MIN => "MIN"@,
            Aggregation::MAX => "MAX"@,
            Aggregation::STDDEV => "STDDEV"@,
        }
    }

    /// The aggregation that `s` names; the case counts.
    pub fn from_str(s: &str) -> (r: Result<Aggregation, &'static str>)
        ensures
            match r {
                Ok(a) => aggregation_named(s@) == Some(a),
                Err(msg) => aggregation_named(s@) is None && msg@ == "Invalid aggregation type"@,
            },
    {
        if same_text(s, "SUM") {
            Ok(Aggregation::SUM)
        } else if same_text(s, "COUNT") {
            Ok(Aggregation::COUNT)
        } else if same_text(s, "AVG") {
            Ok(Aggregation::AVG)
        } else if same_text(s, "MIN") {
            Ok(Aggregation::MIN)
        } else if same_text(s, "MAX") {
            Ok(Aggregation::MAX)
        } else if same_text(s, "STDDEV") {
            Ok(Aggregation::STDDEV)
        } else {
            Err("Invalid aggregation type")
        }
    }

    /// The name of the aggregation, in capitals.
    pub fn to_string(&self) -> (s: String)
        ensures
            s@ == self.name(),
    {
        match self {
            Aggregation::SUM => "SUM".to_string(),
            Aggregation::COUNT => "COUNT".to_string(),
            Aggregation::AVG => "AVG".to_string(),
            Aggregation::MIN => "MIN".to_string(),
            Aggregation::MAX => "MAX".to_string(),
            Aggregation::STDDEV => "STDDEV".to_string(),
        }
    }
}

/// What happens when a model's evaluations meet its threshold.
#[derive(Debug, Clone, PartialEq)]
pub struct Action {
    pub action_type: String,
    pub reason: String,
}

/// What an action stands for.
pub struct ActionView {
    pub action_type: Seq<char>,
    pub reason: Seq<char>,
}

impl View for Action {
    type V = ActionView;

    open spec fn view(&self) -> ActionView {
        ActionView { action_type: self.action_type@, reason: self.reason@ }
    }
}

/// A value of the document grammar.
#[derive(Debug, PartialEq)]
pub enum Value {
    String(String),
    Number(Decimal),
    Bool(bool),
    Array(Vec<Value>),
    Object(Vec<(String, Value)>),
}

/// What a value stands for.
pub enum ValueView {
    String(Seq<char>),
    Number(DecimalView),
    Bool(bool),
    Array(Seq<ValueView>),
    Object(Seq<(Seq<char>, ValueView)>),
}

/// What a value stands for.
pub open spec fn value_view(v: Value) -> ValueView
    decreases v,
{
    match v {
        Value::String(s) => ValueView::String(s@),
        Value::Number(d) => ValueView::Number(d@),
        Value::Bool(b) => ValueView::Bool(b),
        Value::Array(items) => ValueView::Array(
            Seq::new(
                items.len() as nat,
                |i: int|
                    if 0 <= i < items.len() {
                        value_view(items[i])
                    } else {
                        ValueView::Bool(false)
                    },
            ),
        ),
        Value::Object(fields) => ValueView::Object(
            Seq::new(
                fields.len() as nat,
                |i: int|
                    if 0 <= i < fields.len() {
                        (fields[i].0@, value_view(fields[i].1))
                    } else {
                        (Seq::<char>::empty(), ValueView::Bool(false))
                    },
            ),
        ),
    }
}

impl View for Value {
    type V = ValueView;

    open spec fn view(&self) -> ValueView {
        value_view(*self)
    }
}

/// The views of the members of an object, key by key.
pub open spec fn field_views(fields: Seq<(String, Value)>) -> Seq<(Seq<char>, ValueView)> {
    Seq::new(fields.len(), |i: int| (fields[i].0@, fields[i].1@))
}

/// The view of an array is the views of its items.
pub proof fn lemma_array_view(items: Vec<Value>)
    ensures
        Value::Array(items)@ == ValueView::Array(views(items@)),
{
    assert(Value::Array(items)@->Array_0 =~= views(items@));
}

/// The view of an object is the views of its members.
pub proof fn lemma_object_view(fields: Vec<(String, Value)>)
    ensures
        Value::Object(fields)@ == ValueView::Object(field_views(fields@)),
{
    assert(Value::Object(fields)@->Object_0 =~= field_views(fields@));
}

impl Value {
    /// An equal value.
    pub fn duplicate(&self) -> (r: Value)
        ensures
            r@ == self@,
        decreases self,
    {
        match self {
            Value::String(s) => Value::String(s.clone()),
            Value::Number(d) => Value::Number(d.duplicate()),
            Value::Bool(b) => Value::Bool(*b),
            Value::Array(items) => {
                let mut out: Vec<Value> = Vec::new();
                let mut i: usize = 0;
                while i < items.len()
                    invariant
                        i <= items.len(),
                        out@.len() == i,
                        forall|j: int| 0 <= j < i ==> out@[j]@ == items@[j]@,
                        *self == Value::Array(*items),
                    decreases items.len() - i,
                {
                    proof {
                        assert(decreases_to!(self => self->Array_0));
                        assert(decreases_to!(self->Array_0 => self->Array_0[i as int]));
                    }
                    let c = items[i].duplicate();
                    out.push(c);
                    i += 1;
                }
                proof {
                    lemma_array_view(out);
                    lemma_array_view(*items);
                    assert(views(out@) =~= views(items@));
                }
                Value::Array(out)
            },
            Value::Object(fields) => {
                let mut out: Vec<(String, Value)> = Vec::new();
                let mut i: usize = 0;
                while i < fields.len()
                    invariant
                        i <= fields.len(),
                        out@.len() == i,
                        forall|j: int|
                            0 <= j < i ==> out@[j].0@ == fields@[j].0@ && out@[j].1@
                                == fields@[j].1@,
                        *self == Value::Object(*fields),
                    decreases fields.len() - i,
                {
                    proof {
                        assert(decreases_to!(self => self->Object_0));
                        assert(decreases_to!(self->Object_0 => self->Object_0[i as int]));
                        assert(decreases_to!(self->Object_0[i as int] => self->Object_0[i as int].1));
                    }
                    let c = fields[i].1.duplicate();
                    out.push((fields[i].0.clone(), c));
                    i += 1;
                }
                proof {
                    lemma_object_view(out);
                    lemma_object_view(*fields);
                    assert(field_views(out@) =~= field_views(fields@));
                }
                Value::Object(out)
            },
        }
    }
}

impl Clone for Value {
    fn clone(&self) -> (r: Value)
        ensures
            r@ == self@,
    {
        self.duplicate()
    }
}

/// A named check of a model.
#[derive(Debug, Clone, PartialEq)]
pub struct Evaluation {
    pub name: String,
    pub evaluation_type: EvaluationType,
    pub left: Option<String>,
    pub operator: Option<String>,
    pub right: Option<Value>,
    pub operands: Option<Vec<String>>,
    pub weight: Option<i32>,
    pub aggregation: Option<Aggregation>,
}

/// What an evaluation stands for.
pub struct EvaluationView {
    pub name: Seq<char>,
    pub evaluation_type: EvaluationType,
    pub left: Option<Seq<char>>,
    pub operator: Option<Seq<char>>,
    pub right: Option<ValueView>,
    pub operands: Option<Seq<Seq<char>>>,
    pub weight: Option<i32>,
    pub aggregation: Option<Aggregation>,
}

impl View for Evaluation {
    type V = EvaluationView;

    open spec fn view(&self) -> EvaluationView {
        EvaluationView {
            name: self.name@,
            evaluation_type: self.evaluation_type,
            left: view_opt(self.left),
            operator: view_opt(self.operator),
            right: view_opt(self.right),
            operands: match self.operands {
                Some(v) => Some(views(v@)),
                None => None,
            },
            weight: self.weight,
            aggregation: self.aggregation,
        }
    }
}

/// A copy of a list of strings.
pub fn clone_strings(v: &Vec<String>) -> (r: Vec<String>)
    ensures
        views(r@) == views(v@),
{
    let mut out: Vec<String> = Vec::new();
    let mut i: usize = 0;
    while i < v.len()
        invariant
            i <= v@.len(),
            out@.len() == i,
            forall|j: int| 0 <= j < i ==> out@[j]@ == v@[j]@,
        decreases v@.len() - i,
    {
        out.push(v[i].clone());
        i += 1;
    }
    assert(views(out@) =~= views(v@));
    out
}

} // verus!

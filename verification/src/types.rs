//! Types.
//!
//! No inference and no generics, so this is equality checking rather than
//! unification.
use vstd::prelude::*;
use vstd::string::*;

verus! {

/// The closed set of enum domains. Members live in `env`.
#[derive(Debug, Clone, Copy, PartialEq, Eq, Structural)]
pub enum Domain {
    Queue,
    Role,
    BuildingType,
    UnitType,
    SquadName,
    Axis,
    SupportPower,
    SquadDomain,
    SquadRole,
}

/// How a domain is named in a diagnostic.
pub open spec fn domain_name(d: Domain) -> Seq<char> {
    match d {
        Domain::Queue => "queue"@,
        Domain::Role => "role"@,
        Domain::BuildingType => "building"@,
        Domain::UnitType => "unit"@,
        Domain::SquadName => "squad"@,
        Domain::Axis => "axis"@,
        Domain::SupportPower => "support power"@,
        Domain::SquadDomain => "squad domain"@,
        Domain::SquadRole => "squad role"@,
    }
}

impl Domain {
    pub fn name(self) -> (s: &'static str)
        ensures
            s@ == domain_name(self),
    {
        match self {
            Domain::Queue => "queue",
            Domain::Role => "role",
            Domain::BuildingType => "building",
            Domain::UnitType => "unit",
            Domain::SquadName => "squad",
            Domain::Axis => "axis",
            Domain::SupportPower => "support power",
            Domain::SquadDomain => "squad domain",
            Domain::SquadRole => "squad role",
        }
    }
}

#[derive(Debug, PartialEq, Eq)]
pub enum Type {
    Int,
    Float,
    Bool,
    /// A member of one of the enum domains.
    Enum(Domain),
    /// An opaque game object, only ever reached through `Option`.
    Enemy,
    /// `exists` is the only thing that consumes one; it is not a `Bool`.
    Option(Box<Type>),
    /// Only ever counted; the element type is unmodelled because nothing can
    /// reach an element.
    Collection,
    /// Compatible with everything, so one mistake reports once rather than
    /// cascading.
    Error,
}

/// How a type is written in a diagnostic.
pub open spec fn type_text(t: Type) -> Seq<char>
    decreases t,
{
    match t {
        Type::Int => "int"@,
        Type::Float => "float"@,
        Type::Bool => "bool"@,
        Type::Enum(d) => domain_name(d),
        Type::Enemy => "enemy"@,
        Type::Option(inner) => "optional "@ + type_text(*inner),
        Type::Collection => "collection"@,
        Type::Error => "<error>"@,
    }
}

impl Type {
    /// `Error` matches anything.
    pub open spec fn spec_compatible(&self, other: &Type) -> bool {
        self is Error || other is Error || *self == *other
    }

    pub open spec fn spec_is_numeric(&self) -> bool {
        self is Int || self is Float || self is Error
    }

    /// Structural equality, which is what `==` on types means.
    pub fn same(&self, other: &Type) -> (b: bool)
        ensures
            b == (*self == *other),
        decreases self,
    {
        match (self, other) {
            (Type::Int, Type::Int) => true,
            (Type::Float, Type::Float) => true,
            (Type::Bool, Type::Bool) => true,
            (Type::Enum(a), Type::Enum(b)) => *a == *b,
            (Type::Enemy, Type::Enemy) => true,
            (Type::Option(a), Type::Option(b)) => (**a).same(&**b),
            (Type::Collection, Type::Collection) => true,
            (Type::Error, Type::Error) => true,
            _ => false,
        }
    }

    /// A copy of this type.
    pub fn duplicate(&self) -> (t: Type)
        ensures
            t == *self,
        decreases self,
    {
        match self {
            Type::Int => Type::Int,
            Type::Float => Type::Float,
            Type::Bool => Type::Bool,
            Type::Enum(d) => Type::Enum(*d),
            Type::Enemy => Type::Enemy,
            Type::Option(inner) => Type::Option(Box::new((**inner).duplicate())),
            Type::Collection => Type::Collection,
            Type::Error => Type::Error,
        }
    }

    pub fn compatible(&self, other: &Type) -> (b: bool)
        ensures
            b == self.spec_compatible(other),
    {
        matches!(self, Type::Error) || matches!(other, Type::Error) || self.same(other)
    }

    pub fn is_numeric(&self) -> (b: bool)
        ensures
            b == self.spec_is_numeric(),
    {
        matches!(self, Type::Int | Type::Float | Type::Error)
    }

    pub fn describe(&self) -> (s: String)
        ensures
            s@ == type_text(*self),
        decreases self,
    {
        match self {
            Type::Int => String::from_str("int"),
            Type::Float => String::from_str("float"),
            Type::Bool => String::from_str("bool"),
            Type::Enum(d) => String::from_str(d.name()),
            Type::Enemy => String::from_str("enemy"),
            Type::Option(inner) => {
                let mut s = String::from_str("optional ");
                let t = (**inner).describe();
                s.append(t.as_str());
                s
            },
            Type::Collection => String::from_str("collection"),
            Type::Error => String::from_str("<error>"),
        }
    }
}

/// What a parameter accepts.
///
/// Separate from `Type` because a parameter may span several domains and a
/// return type never can.
#[derive(Debug, PartialEq, Eq)]
pub enum ParamType {
    Exact(Type),
    /// A member of any one of these domains, which must be disjoint so the name
    /// alone decides which.
    AnyOf(Vec<Domain>),
}

/// What a parameter accepts, as a specification sees it.
pub enum ParamSpec {
    Exact(Type),
    AnyOf(Seq<Domain>),
}

pub open spec fn param_view(p: ParamType) -> ParamSpec {
    match p {
        ParamType::Exact(t) => ParamSpec::Exact(t),
        ParamType::AnyOf(ds) => ParamSpec::AnyOf(ds@),
    }
}

pub open spec fn params_view(v: Seq<ParamType>) -> Seq<ParamSpec> {
    v.map_values(|p: ParamType| param_view(p))
}

/// The domains joined by " or ".
pub open spec fn domains_text(ds: Seq<Domain>) -> Seq<char>
    decreases ds.len(),
{
    if ds.len() == 0 {
        Seq::empty()
    } else if ds.len() == 1 {
        domain_name(ds[0])
    } else {
        domains_text(ds.drop_last()) + " or "@ + domain_name(ds.last())
    }
}

/// Two parameter types accept the same things.
pub open spec fn same_param(a: ParamType, b: ParamType) -> bool {
    match (a, b) {
        (ParamType::Exact(x), ParamType::Exact(y)) => x == y,
        (ParamType::AnyOf(x), ParamType::AnyOf(y)) => x@ == y@,
        _ => false,
    }
}

pub open spec fn param_type_text(p: ParamType) -> Seq<char> {
    match p {
        ParamType::Exact(t) => type_text(t),
        ParamType::AnyOf(ds) => domains_text(ds@),
    }
}

impl ParamType {
    /// A copy of this parameter type.
    pub fn duplicate(&self) -> (p: ParamType)
        ensures
            same_param(p, *self),
    {
        match self {
            ParamType::Exact(t) => ParamType::Exact(t.duplicate()),
            ParamType::AnyOf(ds) => {
                let mut v: Vec<Domain> = Vec::new();
                let mut i: usize = 0;
                while i < ds.len()
                    invariant
                        i <= ds@.len(),
                        v@ == ds@.subrange(0, i as int),
                    decreases ds@.len() - i,
                {
                    v.push(ds[i]);
                    i += 1;
                }
                assert(v@ =~= ds@);
                ParamType::AnyOf(v)
            },
        }
    }

    pub fn describe(&self) -> (s: String)
        ensures
            s@ == param_type_text(*self),
    {
        match self {
            ParamType::Exact(t) => t.describe(),
            ParamType::AnyOf(ds) => {
                let mut s = String::new();
                let mut i: usize = 0;
                while i < ds.len()
                    invariant
                        i <= ds@.len(),
                        s@ == domains_text(ds@.subrange(0, i as int)),
                    decreases ds@.len() - i,
                {
                    assert(ds@.subrange(0, i + 1).drop_last() =~= ds@.subrange(0, i as int));
                    if i > 0 {
                        s.append(" or ");
                    }
                    s.append(ds[i].name());
                    i += 1;
                }
                assert(ds@.subrange(0, ds@.len() as int) =~= ds@);
                s
            },
        }
    }
}

} // verus!

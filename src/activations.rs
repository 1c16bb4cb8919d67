use vstd::prelude::*;
use vstd::string::StrSliceExecFns;

verus! {

/// The closed set of pointwise activation functions a dense layer applies.
///
/// The arithmetic of each variant lives with the floating-point engine; the
/// library owns the variant itself, its persisted tag and its configuration name.
#[derive(Clone, Copy, Debug, PartialEq, Eq, Structural)]
pub enum ActivationType {
    ReLU,
    Sigmoid,
    Linear,
    Tanh,
}

/// The closed set of optimizer kinds a training run can be configured with.
#[derive(Clone, Copy, Debug, PartialEq, Eq, Structural)]
pub enum OptimizerKind {
    SGD,
    Adam,
}

/// Number of activation variants, and so the bound on valid persisted tags.
pub const ACTIVATION_TAGS: u32 = 4;

impl ActivationType {
    /// The tag written for this variant in a persisted model (its position in
    /// the declaration).
    pub open spec fn spec_tag(self) -> u32 {
        match self {
            ActivationType::ReLU => 0,
            ActivationType::Sigmoid => 1,
            ActivationType::Linear => 2,
            ActivationType::Tanh => 3,
        }
    }

    /// The variant a persisted tag stands for, if any.
    pub open spec fn spec_from_tag(t: u32) -> Option<ActivationType> {
        if t == 0 {
            Some(ActivationType::ReLU)
        } else if t == 1 {
            Some(ActivationType::Sigmoid)
        } else if t == 2 {
            Some(ActivationType::Linear)
        } else if t == 3 {
            Some(ActivationType::Tanh)
        } else {
            None
        }
    }

    pub fn tag(&self) -> (r: u32)
        ensures
            r == self.spec_tag(),
            r < ACTIVATION_TAGS,
    {
        match self {
            ActivationType::ReLU => 0,
            ActivationType::Sigmoid => 1,
            ActivationType::Linear => 2,
            ActivationType::Tanh => 3,
        }
    }

    pub fn from_tag(t: u32) -> (r: Option<ActivationType>)
        ensures
            r == Self::spec_from_tag(t),
            r.is_some() <==> t < ACTIVATION_TAGS,
    {
        if t == 0 {
            Some(ActivationType::ReLU)
        } else if t == 1 {
            Some(ActivationType::Sigmoid)
        } else if t == 2 {
            Some(ActivationType::Linear)
        } else if t == 3 {
            Some(ActivationType::Tanh)
        } else {
            None
        }
    }

    /// Reads an activation from its configuration name. A name outside the set
    /// is not an error: it falls back to ReLU.
    pub fn from_name(name: &str) -> (r: ActivationType)
        ensures
            r == spec_activation_named(name@),
    {
        if same_text(name, "Sigmoid") {
            ActivationType::Sigmoid
        } else if same_text(name, "Tanh") {
            ActivationType::Tanh
        } else if same_text(name, "Linear") {
            ActivationType::Linear
        } else {
            ActivationType::ReLU
        }
    }
}

impl OptimizerKind {
    /// Reads an optimizer kind from its configuration name. A name outside the
    /// set is not an error: it falls back to SGD.
    pub fn from_name(name: &str) -> (r: OptimizerKind)
        ensures
            r == spec_optimizer_named(name@),
    {
        if same_text(name, "Adam") {
            OptimizerKind::Adam
        } else {
            OptimizerKind::SGD
        }
    }
}

/// The activation a configuration name selects.
pub open spec fn spec_activation_named(name: Seq<char>) -> ActivationType {
    if name == "Sigmoid"@ {
        ActivationType::Sigmoid
    } else if name == "Tanh"@ {
        ActivationType::Tanh
    } else if name == "Linear"@ {
        ActivationType::Linear
    } else {
        ActivationType::ReLU
    }
}

/// The optimizer kind a configuration name selects.
pub open spec fn spec_optimizer_named(name: Seq<char>) -> OptimizerKind {
    if name == "Adam"@ {
        OptimizerKind::Adam
    } else {
        OptimizerKind::SGD
    }
}

/// Character-wise equality of two strings.
fn same_text(a: &str, b: &str) -> (r: bool)
    ensures
        r == (a@ == b@),
{
    let n = a.unicode_len();
    if n != b.unicode_len() {
        return false;
    }
    let mut i: usize = 0;
    while i < n
        invariant
            n == a@.len(),
            n == b@.len(),
            i <= n,
            forall|k: int| 0 <= k < i ==> a@[k] == b@[k],
        decreases n - i,
    {
        if a.get_char(i) != b.get_char(i) {
            return false;
        }
        i = i + 1;
    }
    assert(a@ =~= b@);
    true
}

} // verus!

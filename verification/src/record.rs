//! The record stored for one registered backend.

use vstd::prelude::*;

verus! {

/// Mathematical image of a [`ModelRecord`]: the four fields as plain
/// sequences and a boolean.
#[verifier::ext_equal]
pub struct ModelRecordView {
    pub name: Seq<char>,
    pub address: Seq<char>,
    pub owner: Seq<char>,
    pub is_quantized: bool,
}

/// One entry per registered backend: a display name, the locator at which
/// its liveness endpoint is reached, the registrant's identity, and a tag
/// for the quantized model variant.
#[derive(Debug)]
pub struct ModelRecord {
    pub name: String,
    pub address: String,
    pub owner: String,
    pub is_quantized: bool,
}

impl View for ModelRecord {
    type V = ModelRecordView;

    open spec fn view(&self) -> ModelRecordView {
        ModelRecordView {
            name: self.name@,
            address: self.address@,
            owner: self.owner@,
            is_quantized: self.is_quantized,
        }
    }
}

impl Clone for ModelRecord {
    fn clone(&self) -> (r: ModelRecord)
        ensures
            r == *self,
    {
        ModelRecord {
            name: self.name.clone(),
            address: self.address.clone(),
            owner: self.owner.clone(),
            is_quantized: self.is_quantized,
        }
    }
}

impl PartialEq for ModelRecord {
    fn eq(&self, other: &ModelRecord) -> (r: bool) {
        self.name == other.name && self.address == other.address && self.owner == other.owner
            && self.is_quantized == other.is_quantized
    }
}

impl vstd::std_specs::cmp::PartialEqSpecImpl for ModelRecord {
    open spec fn obeys_eq_spec() -> bool {
        true
    }

    open spec fn eq_spec(&self, other: &ModelRecord) -> bool {
        self@ == other@
    }
}

impl ModelRecordView {
    /// The one-line description printed for a record in a sweep summary:
    /// the name, a `(quant)` mark for the quantized variant, the address
    /// and the owner.
    pub open spec fn describe(self) -> Seq<char> {
        if self.is_quantized {
            "\t"@ + self.name + " (quant) - "@ + self.address + " by "@ + self.owner
        } else {
            "\t"@ + self.name + " - "@ + self.address + " by "@ + self.owner
        }
    }
}

impl ModelRecord {
    /// Render the record's one-line description.
    pub fn describe(&self) -> (out: String)
        ensures
            out@ == self@.describe(),
    {
        let mut out = String::new();
        out.append("\t");
        out.append(self.name.as_str());
        if self.is_quantized {
            out.append(" (quant) - ");
        } else {
            out.append(" - ");
        }
        out.append(self.address.as_str());
        out.append(" by ");
        out.append(self.owner.as_str());
        out
    }
}

} // verus!

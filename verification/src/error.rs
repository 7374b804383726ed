//! Why a pointer could not be measured.
use vstd::prelude::*;
use crate::geometry::cur_box;
use crate::text::{box_string, box_text};
use vstd::string::StringExecFns;

verus! {

/// Why a pointer could not be measured.
#[derive(Debug)]
pub enum CursorSizeErr {
    /// The DXGI desktop duplication gave no pointer shape.
    DXDupe(String),
    /// A cursor bitmap could not be read.
    Bitmap(String),
    /// The cursor's icon information is unusable (for instance, nothing is drawn).
    Ii(String),
    /// The measured box is empty; it is given as measured.
    BoxSzInvalid(cur_box),
    /// GDI objects could not be released.
    ResourceLeak(String),
}

impl CursorSizeErr {
    /// The error's message, as `"DX Duplication error: {detail}"` for a DXGI error.
    pub fn message(&self) -> (s: String)
        ensures
            s@ == match self {
                CursorSizeErr::DXDupe(m) => "DX Duplication error: "@ + m@,
                CursorSizeErr::Bitmap(m) => "Failed parsing cursor bitmap: "@ + m@,
                CursorSizeErr::Ii(m) => "IconInfo error: "@ + m@,
                CursorSizeErr::BoxSzInvalid(b) => "Bounding box has invalid size: "@ + box_text(*b),
                CursorSizeErr::ResourceLeak(_) => "🛑GDI resource leak!"@,
            },
    {
        match self {
            CursorSizeErr::DXDupe(m) => String::from_str("DX Duplication error: ").concat(m.as_str()),
            CursorSizeErr::Bitmap(m) => String::from_str("Failed parsing cursor bitmap: ").concat(m.as_str()),
            CursorSizeErr::Ii(m) => String::from_str("IconInfo error: ").concat(m.as_str()),
            CursorSizeErr::BoxSzInvalid(b) => {
                let t = box_string(b);
                String::from_str("Bounding box has invalid size: ").concat(t.as_str())
            },
            CursorSizeErr::ResourceLeak(_) => String::from_str("🛑GDI resource leak!"),
        }
    }
}

} // verus!

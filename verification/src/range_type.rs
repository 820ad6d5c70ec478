//! The numeric types a set of ranges can be written for.
use vstd::prelude::*;

use crate::text::to_chars;

verus! {

/// The numeric type that the count of a plural range has.
#[derive(Debug, Hash, Clone, Copy, PartialEq, Eq, Structural)]
pub enum RangeType {
    I8,
    I16,
    I32,
    I64,
    U8,
    U16,
    U32,
    U64,
    F32,
    F64,
}

impl Default for RangeType {
    fn default() -> (r: Self)
        ensures
            r == RangeType::I32,
    {
        RangeType::I32
    }
}

/// The name of a range type, as it is written in Rust source.
pub open spec fn spec_type_name(t: RangeType) -> Seq<char> {
    match t {
        RangeType::I8 => seq!['i', '8'],
        RangeType::I16 => seq!['i', '1', '6'],
        RangeType::I32 => seq!['i', '3', '2'],
        RangeType::I64 => seq!['i', '6', '4'],
        RangeType::U8 => seq!['u', '8'],
        RangeType::U16 => seq!['u', '1', '6'],
        RangeType::U32 => seq!['u', '3', '2'],
        RangeType::U64 => seq!['u', '6', '4'],
        RangeType::F32 => seq!['f', '3', '2'],
        RangeType::F64 => seq!['f', '6', '4'],
    }
}

/// The range type whose name is `t`, if any.
pub open spec fn spec_type_from_name(t: Seq<char>) -> Option<RangeType> {
    if t == spec_type_name(RangeType::I8) {
        Some(RangeType::I8)
    } else if t == spec_type_name(RangeType::I16) {
        Some(RangeType::I16)
    } else if t == spec_type_name(RangeType::I32) {
        Some(RangeType::I32)
    } else if t == spec_type_name(RangeType::I64) {
        Some(RangeType::I64)
    } else if t == spec_type_name(RangeType::U8) {
        Some(RangeType::U8)
    } else if t == spec_type_name(RangeType::U16) {
        Some(RangeType::U16)
    } else if t == spec_type_name(RangeType::U32) {
        Some(RangeType::U32)
    } else if t == spec_type_name(RangeType::U64) {
        Some(RangeType::U64)
    } else if t == spec_type_name(RangeType::F32) {
        Some(RangeType::F32)
    } else if t == spec_type_name(RangeType::F64) {
        Some(RangeType::F64)
    } else {
        None
    }
}

impl RangeType {
    pub open spec fn spec_should_have_fallback(self) -> bool {
        self == RangeType::F32 || self == RangeType::F64
    }

    /// Float ranges cannot be exhaustive without a fallback arm.
    pub fn should_have_fallback(self) -> (b: bool)
        ensures
            b == self.spec_should_have_fallback(),
    {
        match self {
            RangeType::F64 | RangeType::F32 => true,
            _ => false,
        }
    }

    /// The name of the type, as `Display` writes it and as it is written in
    /// Rust source (the identifier that `to_tokens` emits).
    pub fn name(self) -> (s: &'static str)
        ensures
            s@ == spec_type_name(self),
    {
        match self {
            RangeType::I8 => {
                proof {
                    reveal_strlit("i8");
                }
                "i8"
            },
            RangeType::I16 => {
                proof {
                    reveal_strlit("i16");
                }
                "i16"
            },
            RangeType::I32 => {
                proof {
                    reveal_strlit("i32");
                }
                "i32"
            },
            RangeType::I64 => {
                proof {
                    reveal_strlit("i64");
                }
                "i64"
            },
            RangeType::U8 => {
                proof {
                    reveal_strlit("u8");
                }
                "u8"
            },
            RangeType::U16 => {
                proof {
                    reveal_strlit("u16");
                }
                "u16"
            },
            RangeType::U32 => {
                proof {
                    reveal_strlit("u32");
                }
                "u32"
            },
            RangeType::U64 => {
                proof {
                    reveal_strlit("u64");
                }
                "u64"
            },
            RangeType::F32 => {
                proof {
                    reveal_strlit("f32");
                }
                "f32"
            },
            RangeType::F64 => {
                proof {
                    reveal_strlit("f64");
                }
                "f64"
            },
        }
    }

    /// The name of the type, as the `Display` impl of the type writes it.
    pub fn to_string(self) -> (s: String)
        ensures
            s@ == spec_type_name(self),
    {
        String::from_str(self.name())
    }
}

/// Whether the characters `a` are those of `b`.
pub fn chars_equal(a: &[char], b: &[char]) -> (r: bool)
    ensures
        r == (a@ == b@),
{
    if a.len() != b.len() {
        return false;
    }
    let mut i: usize = 0;
    while i < a.len()
        invariant
            a@.len() == b@.len(),
            i <= a@.len(),
            forall|j: int| 0 <= j < i ==> a@[j] == b@[j],
        decreases a@.len() - i,
    {
        if a[i] != b[i] {
            return false;
        }
        i = i + 1;
    }
    assert(a@ =~= b@);
    true
}

/// The range type whose name is `t`, if any.
pub fn type_from_name(t: &[char]) -> (r: Option<RangeType>)
    ensures
        r == spec_type_from_name(t@),
{
    let all = [
        RangeType::I8,
        RangeType::I16,
        RangeType::I32,
        RangeType::I64,
        RangeType::U8,
        RangeType::U16,
        RangeType::U32,
        RangeType::U64,
        RangeType::F32,
        RangeType::F64,
    ];
    let mut i: usize = 0;
    while i < 10
        invariant
            0 <= i <= 10,
            all@ == seq![
                RangeType::I8,
                RangeType::I16,
                RangeType::I32,
                RangeType::I64,
                RangeType::U8,
                RangeType::U16,
                RangeType::U32,
                RangeType::U64,
                RangeType::F32,
                RangeType::F64,
            ],
            forall|j: int| 0 <= j < i ==> t@ != spec_type_name(#[trigger] all@[j]),
        decreases 10 - i,
    {
        let ty = all[i];
        let name = to_chars(ty.name());
        if chars_equal(t, name.as_slice()) {
            assert(t@ == spec_type_name(all@[i as int]));
            return Some(ty);
        }
        i = i + 1;
    }
    assert(t@ != spec_type_name(all@[0]));
    assert(t@ != spec_type_name(all@[1]));
    assert(t@ != spec_type_name(all@[2]));
    assert(t@ != spec_type_name(all@[3]));
    assert(t@ != spec_type_name(all@[4]));
    assert(t@ != spec_type_name(all@[5]));
    assert(t@ != spec_type_name(all@[6]));
    assert(t@ != spec_type_name(all@[7]));
    assert(t@ != spec_type_name(all@[8]));
    assert(t@ != spec_type_name(all@[9]));
    None
}

} // verus!

//! Values from the integers and texts of Rust.

use vstd::prelude::*;
use vstd::slice::slice_to_vec;
use vstd::std_specs::convert::FromSpecImpl;
use vstd::string::StringSliceAdditionalSpecFns;
use vstd::utf8::encode_utf8;
use crate::bencode::value::{lemma_view, BenObject, BenValue};

verus! {

impl From<u8> for BenObject {
    fn from(val: u8) -> (obj: BenObject)
        ensures
            obj@ == BenValue::Int(val as i64),
    {
        let obj = BenObject::Int(val as i64);
        proof {
            lemma_view(obj);
        }
        obj
    }
}

impl FromSpecImpl<u8> for BenObject {
    open spec fn obeys_from_spec() -> bool {
        true
    }

    open spec fn from_spec(val: u8) -> BenObject {
        BenObject::Int(val as i64)
    }
}

impl From<u16> for BenObject {
    fn from(val: u16) -> (obj: BenObject)
        ensures
            obj@ == BenValue::Int(val as i64),
    {
        let obj = BenObject::Int(val as i64);
        proof {
            lemma_view(obj);
        }
        obj
    }
}

impl FromSpecImpl<u16> for BenObject {
    open spec fn obeys_from_spec() -> bool {
        true
    }

    open spec fn from_spec(val: u16) -> BenObject {
        BenObject::Int(val as i64)
    }
}

impl From<u32> for BenObject {
    fn from(val: u32) -> (obj: BenObject)
        ensures
            obj@ == BenValue::Int(val as i64),
    {
        let obj = BenObject::Int(val as i64);
        proof {
            lemma_view(obj);
        }
        obj
    }
}

impl FromSpecImpl<u32> for BenObject {
    open spec fn obeys_from_spec() -> bool {
        true
    }

    open spec fn from_spec(val: u32) -> BenObject {
        BenObject::Int(val as i64)
    }
}

impl From<i8> for BenObject {
    fn from(val: i8) -> (obj: BenObject)
        ensures
            obj@ == BenValue::Int(val as i64),
    {
        let obj = BenObject::Int(val as i64);
        proof {
            lemma_view(obj);
        }
        obj
    }
}

impl FromSpecImpl<i8> for BenObject {
    open spec fn obeys_from_spec() -> bool {
        true
    }

    open spec fn from_spec(val: i8) -> BenObject {
        BenObject::Int(val as i64)
    }
}

impl From<i16> for BenObject {
    fn from(val: i16) -> (obj: BenObject)
        ensures
            obj@ == BenValue::Int(val as i64),
    {
        let obj = BenObject::Int(val as i64);
        proof {
            lemma_view(obj);
        }
        obj
    }
}

impl FromSpecImpl<i16> for BenObject {
    open spec fn obeys_from_spec() -> bool {
        true
    }

    open spec fn from_spec(val: i16) -> BenObject {
        BenObject::Int(val as i64)
    }
}

impl From<i32> for BenObject {
    fn from(val: i32) -> (obj: BenObject)
        ensures
            obj@ == BenValue::Int(val as i64),
    {
        let obj = BenObject::Int(val as i64);
        proof {
            lemma_view(obj);
        }
        obj
    }
}

impl FromSpecImpl<i32> for BenObject {
    open spec fn obeys_from_spec() -> bool {
        true
    }

    open spec fn from_spec(val: i32) -> BenObject {
        BenObject::Int(val as i64)
    }
}

impl From<i64> for BenObject {
    fn from(val: i64) -> (obj: BenObject)
        ensures
            obj@ == BenValue::Int(val as i64),
    {
        let obj = BenObject::Int(val);
        proof {
            lemma_view(obj);
        }
        obj
    }
}

impl FromSpecImpl<i64> for BenObject {
    open spec fn obeys_from_spec() -> bool {
        true
    }

    open spec fn from_spec(val: i64) -> BenObject {
        BenObject::Int(val)
    }
}

impl From<String> for BenObject {
    fn from(val: String) -> (obj: BenObject)
        ensures
            obj@ == BenValue::String(encode_utf8(val@)),
    {
        let obj = BenObject::String(slice_to_vec(val.as_str().as_bytes()));
        proof {
            lemma_view(obj);
        }
        obj
    }
}

impl FromSpecImpl<String> for BenObject {
    open spec fn obeys_from_spec() -> bool {
        false
    }

    open spec fn from_spec(val: String) -> BenObject {
        BenObject::Int(0)
    }
}

impl From<&str> for BenObject {
    fn from(val: &str) -> (obj: BenObject)
        ensures
            obj@ == BenValue::String(val.spec_bytes()),
    {
        let obj = BenObject::String(slice_to_vec(val.as_bytes()));
        proof {
            lemma_view(obj);
        }
        obj
    }
}

impl FromSpecImpl<&str> for BenObject {
    open spec fn obeys_from_spec() -> bool {
        false
    }

    open spec fn from_spec(val: &str) -> BenObject {
        BenObject::Int(0)
    }
}

} // verus!

//! The fixed physical slots that make up a record's body.
//!
//! Every record carries the same eighteen physical columns; the fourteen
//! listed here are the generically typed slots that mapping definitions may
//! bind logical properties to (the other four — identifier, parent
//! reference, sort, and the two system timestamps — are fixed system
//! fields). Five slots hold short text, three hold optional long text,
//! three hold numbers, and three hold timestamps; numbers and timestamps
//! are both carried as 64-bit integers.

use vstd::prelude::*;

use crate::value::Value;

verus! {

/// One of the fourteen generically typed physical slots.
#[derive(Clone, Copy, Debug, PartialEq, Eq, Structural)]
pub enum SlotId {
    Varchar1,
    Varchar2,
    Varchar3,
    Varchar4,
    Varchar5,
    Text1,
    Text2,
    Text3,
    Decimal1,
    Decimal2,
    Decimal3,
    Datetime1,
    Datetime2,
    Datetime3,
}

/// The slot values of one record: its physical body.
#[derive(Debug)]
pub struct Slots {
    pub varchar1: String,
    pub varchar2: String,
    pub varchar3: String,
    pub varchar4: String,
    pub varchar5: String,
    pub text1: Option<String>,
    pub text2: Option<String>,
    pub text3: Option<String>,
    pub decimal1: i64,
    pub decimal2: i64,
    pub decimal3: i64,
    pub datetime1: i64,
    pub datetime2: i64,
    pub datetime3: i64,
}

impl Clone for Slots {
    fn clone(&self) -> (r: Self)
        ensures
            r == *self,
    {
        Slots {
            varchar1: self.varchar1.clone(),
            varchar2: self.varchar2.clone(),
            varchar3: self.varchar3.clone(),
            varchar4: self.varchar4.clone(),
            varchar5: self.varchar5.clone(),
            text1: clone_opt(&self.text1),
            text2: clone_opt(&self.text2),
            text3: clone_opt(&self.text3),
            decimal1: self.decimal1,
            decimal2: self.decimal2,
            decimal3: self.decimal3,
            datetime1: self.datetime1,
            datetime2: self.datetime2,
            datetime3: self.datetime3,
        }
    }
}

/// Clones an optional text value.
fn clone_opt(v: &Option<String>) -> (r: Option<String>)
    ensures
        r == *v,
{
    match v {
        Some(s) => Some(s.clone()),
        None => None,
    }
}

/// The logical value a slot presents: short text reads as text, long text
/// as text or null, numbers and timestamps as numbers.
pub open spec fn slot_val(s: Slots, sl: SlotId) -> Value {
    match sl {
        SlotId::Varchar1 => Value::Text(s.varchar1),
        SlotId::Varchar2 => Value::Text(s.varchar2),
        SlotId::Varchar3 => Value::Text(s.varchar3),
        SlotId::Varchar4 => Value::Text(s.varchar4),
        SlotId::Varchar5 => Value::Text(s.varchar5),
        SlotId::Text1 => match s.text1 {
            Some(t) => Value::Text(t),
            None => Value::Null,
        },
        SlotId::Text2 => match s.text2 {
            Some(t) => Value::Text(t),
            None => Value::Null,
        },
        SlotId::Text3 => match s.text3 {
            Some(t) => Value::Text(t),
            None => Value::Null,
        },
        SlotId::Decimal1 => Value::Num(s.decimal1),
        SlotId::Decimal2 => Value::Num(s.decimal2),
        SlotId::Decimal3 => Value::Num(s.decimal3),
        SlotId::Datetime1 => Value::Num(s.datetime1),
        SlotId::Datetime2 => Value::Num(s.datetime2),
        SlotId::Datetime3 => Value::Num(s.datetime3),
    }
}

/// Whether a logical value can be stored in a slot: short-text slots take
/// text, long-text slots take text or null, numeric and timestamp slots
/// take numbers.
pub open spec fn fits(v: Value, sl: SlotId) -> bool {
    match sl {
        SlotId::Varchar1 | SlotId::Varchar2 | SlotId::Varchar3 | SlotId::Varchar4
            | SlotId::Varchar5 => v is Text,
        SlotId::Text1 | SlotId::Text2 | SlotId::Text3 => v is Text || v is Null,
        SlotId::Decimal1 | SlotId::Decimal2 | SlotId::Decimal3 | SlotId::Datetime1
            | SlotId::Datetime2 | SlotId::Datetime3 => v is Num,
    }
}

/// Whether a value is what an untouched slot presents: empty text for a
/// short-text slot, null for a long-text slot, zero for the rest.
pub open spec fn is_default_val(v: Value, sl: SlotId) -> bool {
    match sl {
        SlotId::Varchar1 | SlotId::Varchar2 | SlotId::Varchar3 | SlotId::Varchar4
            | SlotId::Varchar5 => v matches Value::Text(t) && t@ == Seq::<char>::empty(),
        SlotId::Text1 | SlotId::Text2 | SlotId::Text3 => v is Null,
        SlotId::Decimal1 | SlotId::Decimal2 | SlotId::Decimal3 | SlotId::Datetime1
            | SlotId::Datetime2 | SlotId::Datetime3 => v == (Value::Num(0)),
    }
}

/// A record body with every slot untouched.
pub fn empty_slots() -> (r: Slots)
    ensures
        forall|sl: SlotId| is_default_val(#[trigger] slot_val(r, sl), sl),
{
    let r = Slots {
        varchar1: String::new(),
        varchar2: String::new(),
        varchar3: String::new(),
        varchar4: String::new(),
        varchar5: String::new(),
        text1: None,
        text2: None,
        text3: None,
        decimal1: 0,
        decimal2: 0,
        decimal3: 0,
        datetime1: 0,
        datetime2: 0,
        datetime3: 0,
    };
    proof {
        assert forall|sl: SlotId| is_default_val(#[trigger] slot_val(r, sl), sl) by {
            match sl {
                SlotId::Varchar1 => {},
                SlotId::Varchar2 => {},
                SlotId::Varchar3 => {},
                SlotId::Varchar4 => {},
                SlotId::Varchar5 => {},
                SlotId::Text1 => {},
                SlotId::Text2 => {},
                SlotId::Text3 => {},
                SlotId::Decimal1 => {},
                SlotId::Decimal2 => {},
                SlotId::Decimal3 => {},
                SlotId::Datetime1 => {},
                SlotId::Datetime2 => {},
                SlotId::Datetime3 => {},
            }
        }
    }
    r
}

/// Reads the logical value a slot presents.
pub fn get_slot(s: &Slots, sl: SlotId) -> (v: Value)
    ensures
        v == slot_val(*s, sl),
{
    match sl {
        SlotId::Varchar1 => Value::Text(s.varchar1.clone()),
        SlotId::Varchar2 => Value::Text(s.varchar2.clone()),
        SlotId::Varchar3 => Value::Text(s.varchar3.clone()),
        SlotId::Varchar4 => Value::Text(s.varchar4.clone()),
        SlotId::Varchar5 => Value::Text(s.varchar5.clone()),
        SlotId::Text1 => match &s.text1 {
            Some(t) => Value::Text(t.clone()),
            None => Value::Null,
        },
        SlotId::Text2 => match &s.text2 {
            Some(t) => Value::Text(t.clone()),
            None => Value::Null,
        },
        SlotId::Text3 => match &s.text3 {
            Some(t) => Value::Text(t.clone()),
            None => Value::Null,
        },
        SlotId::Decimal1 => Value::Num(s.decimal1),
        SlotId::Decimal2 => Value::Num(s.decimal2),
        SlotId::Decimal3 => Value::Num(s.decimal3),
        SlotId::Datetime1 => Value::Num(s.datetime1),
        SlotId::Datetime2 => Value::Num(s.datetime2),
        SlotId::Datetime3 => Value::Num(s.datetime3),
    }
}

/// Stores a logical value into a slot if it fits there; other slots are
/// untouched, and nothing changes when the value does not fit.
pub fn set_slot(s: &mut Slots, sl: SlotId, v: Value) -> (ok: bool)
    ensures
        ok == fits(v, sl),
        ok ==> slot_val(*final(s), sl) == v,
        ok ==> forall|sl2: SlotId| sl2 != sl ==> #[trigger] slot_val(*final(s), sl2) == slot_val(
            *old(s),
            sl2,
        ),
        !ok ==> *final(s) == *old(s),
{
    match sl {
        SlotId::Varchar1 => match v {
            Value::Text(t) => {
                s.varchar1 = t;
                true
            },
            _ => false,
        },
        SlotId::Varchar2 => match v {
            Value::Text(t) => {
                s.varchar2 = t;
                true
            },
            _ => false,
        },
        SlotId::Varchar3 => match v {
            Value::Text(t) => {
                s.varchar3 = t;
                true
            },
            _ => false,
        },
        SlotId::Varchar4 => match v {
            Value::Text(t) => {
                s.varchar4 = t;
                true
            },
            _ => false,
        },
        SlotId::Varchar5 => match v {
            Value::Text(t) => {
                s.varchar5 = t;
                true
            },
            _ => false,
        },
        SlotId::Text1 => match v {
            Value::Text(t) => {
                s.text1 = Some(t);
                true
            },
            Value::Null => {
                s.text1 = None;
                true
            },
            _ => false,
        },
        SlotId::Text2 => match v {
            Value::Text(t) => {
                s.text2 = Some(t);
                true
            },
            Value::Null => {
                s.text2 = None;
                true
            },
            _ => false,
        },
        SlotId::Text3 => match v {
            Value::Text(t) => {
                s.text3 = Some(t);
                true
            },
            Value::Null => {
                s.text3 = None;
                true
            },
            _ => false,
        },
        SlotId::Decimal1 => match v {
            Value::Num(n) => {
                s.decimal1 = n;
                true
            },
            _ => false,
        },
        SlotId::Decimal2 => match v {
            Value::Num(n) => {
                s.decimal2 = n;
                true
            },
            _ => false,
        },
        SlotId::Decimal3 => match v {
            Value::Num(n) => {
                s.decimal3 = n;
                true
            },
            _ => false,
        },
        SlotId::Datetime1 => match v {
            Value::Num(n) => {
                s.datetime1 = n;
                true
            },
            _ => false,
        },
        SlotId::Datetime2 => match v {
            Value::Num(n) => {
                s.datetime2 = n;
                true
            },
            _ => false,
        },
        SlotId::Datetime3 => match v {
            Value::Num(n) => {
                s.datetime3 = n;
                true
            },
            _ => false,
        },
    }
}

} // verus!

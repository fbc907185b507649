//! The typed value model of the key-value-storage.
//!
//! A stored value is one of six variants: null, boolean, number, text,
//! array or object.  Numbers carry their decimal JSON lexeme; the engine
//! itself never does floating-point arithmetic on them, it only stores,
//! serializes and compares them.  Arrays are heterogeneous; objects keep
//! their entries in insertion order.

use vstd::prelude::*;
use crate::error::ErrorCode;

verus! {

/// A value of the key-value-storage.
///
/// `Number` holds the decimal JSON lexeme of the number (for example
/// `123`, `-4.5` or `6e10`).  A number is only serializable when its
/// lexeme satisfies [`is_json_number`].
#[derive(Debug, PartialEq)]
pub enum Value {
    /// The null value
    Null,
    /// A boolean
    Boolean(bool),
    /// A number, as its decimal JSON lexeme
    Number(String),
    /// A text string
    Text(String),
    /// An ordered, heterogeneous sequence of values
    Array(Vec<Value>),
    /// A mapping of text keys to values, in insertion order
    Object(Vec<(String, Value)>),
}

/// The mathematical model of a [`Value`]: the same tree over `Seq<char>`
/// and `Seq` instead of `String` and `Vec`.
#[verifier::ext_equal]
pub enum SpecValue {
    /// The null value
    Null,
    /// A boolean
    Boolean(bool),
    /// A number lexeme
    Number(Seq<char>),
    /// A text string
    Text(Seq<char>),
    /// A sequence of values
    Array(Seq<SpecValue>),
    /// A sequence of key-value entries
    Object(Seq<(Seq<char>, SpecValue)>),
}

impl Value {
    /// The model of this value.
    pub open spec fn view(self) -> SpecValue
        decreases self,
    {
        match self {
            Value::Null => SpecValue::Null,
            Value::Boolean(b) => SpecValue::Boolean(b),
            Value::Number(s) => SpecValue::Number(s@),
            Value::Text(s) => SpecValue::Text(s@),
            Value::Array(vs) => {
                proof {
                    assert(decreases_to!(self => self->Array_0));
                    assert(decreases_to!(vs => vs@));
                }
                SpecValue::Array(Value::view_seq(vs@))
            }
            Value::Object(ps) => {
                proof {
                    assert(decreases_to!(self => self->Object_0));
                    assert(decreases_to!(ps => ps@));
                }
                SpecValue::Object(Value::view_pairs(ps@))
            }
        }
    }

    /// The models of a sequence of values.
    pub open spec fn view_seq(s: Seq<Value>) -> Seq<SpecValue>
        decreases s,
    {
        if s.len() == 0 {
            Seq::empty()
        } else {
            proof {
                assert(decreases_to!(s => s[0]));
                assert(decreases_to!(s => s.skip(1)));
            }
            Value::view_seq(s.skip(1)).insert(0, s[0].view())
        }
    }

    /// The models of a sequence of key-value entries.
    pub open spec fn view_pairs(s: Seq<(String, Value)>) -> Seq<(Seq<char>, SpecValue)>
        decreases s,
    {
        if s.len() == 0 {
            Seq::empty()
        } else {
            proof {
                assert(decreases_to!(s => s[0]));
                assert(decreases_to!(s[0] => s[0].1));
                assert(decreases_to!(s => s.skip(1)));
            }
            Value::view_pairs(s.skip(1)).insert(0, (s[0].0@, s[0].1.view()))
        }
    }

    /// Extract the boolean, or fail with `ConversionFailed`.
    pub fn as_bool(&self) -> (r: Result<bool, ErrorCode>)
        ensures
            match self.view() {
                SpecValue::Boolean(b) => r == Result::<bool, ErrorCode>::Ok(b),
                _ => r == Result::<bool, ErrorCode>::Err(ErrorCode::ConversionFailed),
            },
    {
        match self {
            Value::Boolean(b) => Ok(*b),
            _ => Err(ErrorCode::ConversionFailed),
        }
    }

    /// Extract the number lexeme, or fail with `ConversionFailed`.
    pub fn as_number(&self) -> (r: Result<&String, ErrorCode>)
        ensures
            match self.view() {
                SpecValue::Number(s) => r is Ok && r->Ok_0@ == s,
                _ => r == Result::<&String, ErrorCode>::Err(ErrorCode::ConversionFailed),
            },
    {
        match self {
            Value::Number(s) => Ok(s),
            _ => Err(ErrorCode::ConversionFailed),
        }
    }

    /// Extract the text string, or fail with `ConversionFailed`.
    pub fn as_string(&self) -> (r: Result<&String, ErrorCode>)
        ensures
            match self.view() {
                SpecValue::Text(s) => r is Ok && r->Ok_0@ == s,
                _ => r == Result::<&String, ErrorCode>::Err(ErrorCode::ConversionFailed),
            },
    {
        match self {
            Value::Text(s) => Ok(s),
            _ => Err(ErrorCode::ConversionFailed),
        }
    }

    /// Extract the array elements, or fail with `ConversionFailed`.
    pub fn as_array(&self) -> (r: Result<&Vec<Value>, ErrorCode>)
        ensures
            match self.view() {
                SpecValue::Array(es) => r is Ok && Value::view_seq(r->Ok_0@) == es,
                _ => r == Result::<&Vec<Value>, ErrorCode>::Err(ErrorCode::ConversionFailed),
            },
    {
        match self {
            Value::Array(vs) => Ok(vs),
            _ => Err(ErrorCode::ConversionFailed),
        }
    }

    /// Extract the object entries, or fail with `ConversionFailed`.
    pub fn as_object(&self) -> (r: Result<&Vec<(String, Value)>, ErrorCode>)
        ensures
            match self.view() {
                SpecValue::Object(ps) => r is Ok && Value::view_pairs(r->Ok_0@) == ps,
                _ => r == Result::<&Vec<(String, Value)>, ErrorCode>::Err(
                    ErrorCode::ConversionFailed,
                ),
            },
    {
        match self {
            Value::Object(ps) => Ok(ps),
            _ => Err(ErrorCode::ConversionFailed),
        }
    }

    /// Extract the null value — it carries no payload — or fail with
    /// `ConversionFailed`.
    pub fn as_null(&self) -> (r: Result<(), ErrorCode>)
        ensures
            match self.view() {
                SpecValue::Null => r == Result::<(), ErrorCode>::Ok(()),
                _ => r == Result::<(), ErrorCode>::Err(ErrorCode::ConversionFailed),
            },
    {
        match self {
            Value::Null => Ok(()),
            _ => Err(ErrorCode::ConversionFailed),
        }
    }

    /// Report whether this value is null.
    pub fn is_null(&self) -> (r: bool)
        ensures
            r == (self.view() == SpecValue::Null),
    {
        match self {
            Value::Null => true,
            _ => false,
        }
    }
}

impl Clone for Value {
    /// A deep copy whose model equals the model of the original.
    #[verifier::loop_isolation(false)]
    fn clone(&self) -> (r: Self)
        ensures
            r.view() == self.view(),
        decreases *self,
    {
        match self {
            Value::Null => Value::Null,
            Value::Boolean(b) => Value::Boolean(*b),
            Value::Number(s) => Value::Number(s.clone()),
            Value::Text(s) => Value::Text(s.clone()),
            Value::Array(vs) => {
                let mut out: Vec<Value> = Vec::new();
                let mut i: usize = 0;
                while i < vs.len()
                    invariant
                        i <= vs.len(),
                        out@.len() == i as int,
                        forall|j: int| 0 <= j < i ==> out@[j].view() == vs@[j].view(),
                    decreases vs.len() - i,
                {
                    proof {
                        assert(decreases_to!(*self => self->Array_0));
                        assert(decreases_to!(*vs => vs@));
                        assert(decreases_to!(vs@ => vs@[i as int]));
                    }
                    let c = vs[i].clone();
                    out.push(c);
                    i = i + 1;
                }
                let r = Value::Array(out);
                proof {
                    assert(Value::view_seq(out@) =~= Value::view_seq(vs@)) by {
                        lemma_view_seq_index(out@);
                        lemma_view_seq_index(vs@);
                    }
                }
                r
            }
            Value::Object(ps) => {
                let mut out: Vec<(String, Value)> = Vec::new();
                let mut i: usize = 0;
                while i < ps.len()
                    invariant
                        i <= ps.len(),
                        out@.len() == i as int,
                        forall|j: int| 0 <= j < i ==> out@[j].0@ == ps@[j].0@ && out@[j].1.view()
                            == ps@[j].1.view(),
                    decreases ps.len() - i,
                {
                    proof {
                        assert(decreases_to!(*self => self->Object_0));
                        assert(decreases_to!(*ps => ps@));
                        assert(decreases_to!(ps@ => ps@[i as int]));
                        assert(decreases_to!(ps@[i as int] => ps@[i as int].1));
                    }
                    let k = ps[i].0.clone();
                    let c = ps[i].1.clone();
                    out.push((k, c));
                    i = i + 1;
                }
                let r = Value::Object(out);
                proof {
                    assert(Value::view_pairs(out@) =~= Value::view_pairs(ps@)) by {
                        lemma_view_pairs_index(out@);
                        lemma_view_pairs_index(ps@);
                    }
                }
                r
            }
        }
    }
}

/// The model sequence of values indexes pointwise into the models of the
/// elements.
pub proof fn lemma_view_seq_index(s: Seq<Value>)
    ensures
        Value::view_seq(s).len() == s.len(),
        forall|i: int| 0 <= i < s.len() ==> #[trigger] Value::view_seq(s)[i] == s[i].view(),
    decreases s.len(),
{
    if s.len() > 0 {
        lemma_view_seq_index(s.skip(1));
        assert forall|i: int| 0 <= i < s.len() implies #[trigger] Value::view_seq(s)[i]
            == s[i].view() by {
            if i > 0 {
                assert(Value::view_seq(s)[i] == Value::view_seq(s.skip(1))[i - 1]);
                assert(s.skip(1)[i - 1] == s[i]);
            }
        }
    }
}

/// The model sequence of entries indexes pointwise into the models of the
/// entries.
pub proof fn lemma_view_pairs_index(s: Seq<(String, Value)>)
    ensures
        Value::view_pairs(s).len() == s.len(),
        forall|i: int| 0 <= i < s.len() ==> #[trigger] Value::view_pairs(s)[i] == (
            s[i].0@,
            s[i].1.view(),
        ),
    decreases s.len(),
{
    if s.len() > 0 {
        lemma_view_pairs_index(s.skip(1));
        assert forall|i: int| 0 <= i < s.len() implies #[trigger] Value::view_pairs(s)[i] == (
            s[i].0@,
            s[i].1.view(),
        ) by {
            if i > 0 {
                assert(Value::view_pairs(s)[i] == Value::view_pairs(s.skip(1))[i - 1]);
                assert(s.skip(1)[i - 1] == s[i]);
            }
        }
    }
}

impl SpecValue {
    /// A value is well formed when every number lexeme in it satisfies the
    /// JSON number grammar.  Only well-formed values can be serialized.
    pub open spec fn wf(self) -> bool
        decreases self,
    {
        match self {
            SpecValue::Null => true,
            SpecValue::Boolean(_) => true,
            SpecValue::Number(s) => is_json_number(s),
            SpecValue::Text(_) => true,
            SpecValue::Array(es) => {
                proof {
                    assert(decreases_to!(self => self->Array_0));
                }
                SpecValue::wf_seq(es)
            }
            SpecValue::Object(ps) => {
                proof {
                    assert(decreases_to!(self => self->Object_0));
                }
                SpecValue::wf_pairs(ps)
            }
        }
    }

    /// All values of a sequence are well formed.
    pub open spec fn wf_seq(es: Seq<SpecValue>) -> bool
        decreases es,
    {
        if es.len() == 0 {
            true
        } else {
            proof {
                assert(decreases_to!(es => es[0]));
                assert(decreases_to!(es => es.skip(1)));
            }
            es[0].wf() && SpecValue::wf_seq(es.skip(1))
        }
    }

    /// All values of an entry sequence are well formed.
    pub open spec fn wf_pairs(ps: Seq<(Seq<char>, SpecValue)>) -> bool
        decreases ps,
    {
        if ps.len() == 0 {
            true
        } else {
            proof {
                assert(decreases_to!(ps => ps[0]));
                assert(decreases_to!(ps[0] => ps[0].1));
                assert(decreases_to!(ps => ps.skip(1)));
            }
            ps[0].1.wf() && SpecValue::wf_pairs(ps.skip(1))
        }
    }
}

/// Well-formedness of a sequence is pointwise well-formedness.
pub proof fn lemma_wf_seq_index(es: Seq<SpecValue>)
    ensures
        SpecValue::wf_seq(es) <==> (forall|i: int| 0 <= i < es.len() ==> #[trigger] es[i].wf()),
    decreases es.len(),
{
    if es.len() > 0 {
        lemma_wf_seq_index(es.skip(1));
        assert(forall|i: int| 0 <= i < es.skip(1).len() ==> #[trigger] es.skip(1)[i] == es[i + 1]);
        if SpecValue::wf_seq(es) {
            assert forall|i: int| 0 <= i < es.len() implies #[trigger] es[i].wf() by {
                if i > 0 {
                    assert(es.skip(1)[i - 1].wf());
                }
            }
        }
        if forall|i: int| 0 <= i < es.len() ==> #[trigger] es[i].wf() {
            assert forall|i: int| 0 <= i < es.skip(1).len() implies #[trigger] es.skip(1)[i].wf() by {
                assert(es[i + 1].wf());
            }
            assert(SpecValue::wf_seq(es.skip(1)));
            assert(es[0].wf());
        }
    }
}

/// Well-formedness of an entry sequence is pointwise well-formedness.
pub proof fn lemma_wf_pairs_index(ps: Seq<(Seq<char>, SpecValue)>)
    ensures
        SpecValue::wf_pairs(ps) <==> (forall|i: int|
            0 <= i < ps.len() ==> #[trigger] ps[i].1.wf()),
    decreases ps.len(),
{
    if ps.len() > 0 {
        lemma_wf_pairs_index(ps.skip(1));
        assert(forall|i: int| 0 <= i < ps.skip(1).len() ==> #[trigger] ps.skip(1)[i] == ps[i + 1]);
        if SpecValue::wf_pairs(ps) {
            assert forall|i: int| 0 <= i < ps.len() implies #[trigger] ps[i].1.wf() by {
                if i > 0 {
                    assert(ps.skip(1)[i - 1].1.wf());
                }
            }
        }
        if forall|i: int| 0 <= i < ps.len() ==> #[trigger] ps[i].1.wf() {
            assert forall|i: int| 0 <= i < ps.skip(1).len() implies #[trigger] ps.skip(
                1,
            )[i].1.wf() by {
                assert(ps[i + 1].1.wf());
            }
            assert(SpecValue::wf_pairs(ps.skip(1)));
            assert(ps[0].1.wf());
        }
    }
}

/// A decimal digit.
pub open spec fn spec_is_digit(c: char) -> bool {
    48 <= c as u32 && c as u32 <= 57
}

/// A character that can occur inside a JSON number lexeme.
pub open spec fn spec_is_number_char(c: char) -> bool {
    spec_is_digit(c) || c == '-' || c == '+' || c == '.' || c == 'e' || c == 'E'
}

/// One past the end of the run of decimal digits that starts at `i`.
pub open spec fn spec_scan_digits(s: Seq<char>, i: int) -> int
    decreases s.len() - i,
{
    if 0 <= i < s.len() && spec_is_digit(s[i]) {
        spec_scan_digits(s, i + 1)
    } else {
        i
    }
}

/// One past the end of the integer part that starts at `i` (digits, no
/// leading zero unless the part is exactly `0`), or `-1` when there is none.
pub open spec fn spec_int_part_end(s: Seq<char>, i: int) -> int {
    let e = spec_scan_digits(s, i);
    if e == i {
        -1
    } else if s[i] == '0' && e > i + 1 {
        -1
    } else {
        e
    }
}

/// One past the end of the optional fraction part at `i`, or `-1` when a
/// fraction starts there but is malformed.
pub open spec fn spec_frac_end(s: Seq<char>, i: int) -> int {
    if 0 <= i < s.len() && s[i] == '.' {
        let e = spec_scan_digits(s, i + 1);
        if e > i + 1 {
            e
        } else {
            -1
        }
    } else {
        i
    }
}

/// One past the end of the optional exponent part at `i`, or `-1` when an
/// exponent starts there but is malformed.
pub open spec fn spec_exp_end(s: Seq<char>, i: int) -> int {
    if 0 <= i < s.len() && (s[i] == 'e' || s[i] == 'E') {
        let j = if i + 1 < s.len() && (s[i + 1] == '+' || s[i + 1] == '-') {
            i + 2
        } else {
            i + 1
        };
        let e = spec_scan_digits(s, j);
        if e > j {
            e
        } else {
            -1
        }
    } else {
        i
    }
}

/// The JSON number grammar: `-? int frac? exp?` with `int` free of
/// leading zeros.
pub open spec fn is_json_number(s: Seq<char>) -> bool {
    let start: int = if s.len() > 0 && s[0] == '-' {
        1
    } else {
        0
    };
    let a = spec_int_part_end(s, start);
    if a < 0 {
        false
    } else {
        let b = spec_frac_end(s, a);
        if b < 0 {
            false
        } else {
            let c = spec_exp_end(s, b);
            c == s.len() && c >= 0
        }
    }
}

} // verus!

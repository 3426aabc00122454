//! Primitive values: a value of one of a few kinds, to be read back as the kind that
//! the reader expects.

use crate::coin::{Coin, CoinView};
use crate::decimal::Decimal;
use crate::msg::clone_bytes;
use vstd::prelude::*;
use vstd::string::StringExecFns;

verus! {

/// Who may set values in a store of primitives: only its owner, anyone, or anyone
/// but each only under keys of their own.
#[derive(Debug, Clone, Copy, PartialEq, Eq, Structural)]
pub enum PrimitiveRestriction {
    Private,
    Public,
    Restricted,
}

/// What a store of primitives is set up with.
#[derive(Debug, Clone, Copy, PartialEq, Eq, Structural)]
pub struct InstantiateMsg {
    pub restriction: PrimitiveRestriction,
}

/// A value of one of a few kinds.
#[derive(Debug, PartialEq, Eq)]
pub enum Primitive {
    Uint128(u128),
    Decimal(Decimal),
    Coin(Coin),
    Addr(String),
    String(String),
    Bool(bool),
    Vec(Vec<Primitive>),
    Binary(Vec<u8>),
    /// Named values, in the order in which they were put.
    Object(Vec<(String, Primitive)>),
}

/// What a [`Primitive`] stands for.
pub enum PrimitiveView {
    Uint128(u128),
    Decimal(Decimal),
    Coin(CoinView),
    Addr(Seq<char>),
    String(Seq<char>),
    Bool(bool),
    Vec(Seq<PrimitiveView>),
    Binary(Seq<u8>),
    Object(Seq<(Seq<char>, PrimitiveView)>),
}

/// What the primitive `p` stands for.
pub open spec fn view_of(p: Primitive) -> PrimitiveView
    decreases p,
{
    match p {
        Primitive::Uint128(v) => PrimitiveView::Uint128(v),
        Primitive::Decimal(v) => PrimitiveView::Decimal(v),
        Primitive::Coin(v) => PrimitiveView::Coin(v@),
        Primitive::Addr(v) => PrimitiveView::Addr(v@),
        Primitive::String(v) => PrimitiveView::String(v@),
        Primitive::Bool(v) => PrimitiveView::Bool(v),
        Primitive::Vec(v) => PrimitiveView::Vec(
            Seq::new(
                v@.len(),
                |i: int|
                    if 0 <= i < v@.len() {
                        view_of(v@[i])
                    } else {
                        PrimitiveView::Bool(false)
                    },
            ),
        ),
        Primitive::Binary(v) => PrimitiveView::Binary(v@),
        Primitive::Object(v) => PrimitiveView::Object(
            Seq::new(
                v@.len(),
                |i: int|
                    if 0 <= i < v@.len() {
                        (v@[i].0@, view_of(v@[i].1))
                    } else {
                        (Seq::empty(), PrimitiveView::Bool(false))
                    },
            ),
        ),
    }
}

impl DeepView for Primitive {
    type V = PrimitiveView;

    open spec fn deep_view(&self) -> PrimitiveView {
        view_of(*self)
    }
}

impl View for Primitive {
    type V = PrimitiveView;

    open spec fn view(&self) -> PrimitiveView {
        self.deep_view()
    }
}

/// What a list of primitives stands for.
pub proof fn lemma_list_view(v: Vec<Primitive>)
    ensures
        Primitive::Vec(v)@ == PrimitiveView::Vec(v.deep_view()),
{
    let p = Primitive::Vec(v);
    assert(p.deep_view()->Vec_0.len() == v.deep_view().len());
    assert forall|i: int| 0 <= i < v@.len() implies p.deep_view()->Vec_0[i] == v.deep_view()[i] by {}
    assert(p.deep_view()->Vec_0 =~= v.deep_view());
}

/// What a list of named primitives stands for.
pub proof fn lemma_object_view(v: Vec<(String, Primitive)>)
    ensures
        Primitive::Object(v)@ == PrimitiveView::Object(v.deep_view()),
{
    let p = Primitive::Object(v);
    assert(p.deep_view()->Object_0.len() == v.deep_view().len());
    assert forall|i: int| 0 <= i < v@.len() implies p.deep_view()->Object_0[i] == v.deep_view()[i] by {}
    assert(p.deep_view()->Object_0 =~= v.deep_view());
}

impl Clone for Primitive {
    #[verifier::loop_isolation(false)]
    fn clone(&self) -> (r: Self)
        ensures
            r@ == self@,
        decreases self,
    {
        match self {
            Primitive::Uint128(v) => Primitive::Uint128(*v),
            Primitive::Decimal(v) => Primitive::Decimal(*v),
            Primitive::Coin(v) => Primitive::Coin(v.clone()),
            Primitive::Addr(v) => Primitive::Addr(v.clone()),
            Primitive::String(v) => Primitive::String(v.clone()),
            Primitive::Bool(v) => Primitive::Bool(*v),
            Primitive::Vec(v) => {
                let mut out: Vec<Primitive> = Vec::new();
                let mut i: usize = 0;
                while i < v.len()
                    invariant
                        i <= v.len(),
                        out.len() == i,
                        forall|j: int| 0 <= j < i ==> out[j]@ == v[j]@,
                    decreases v.len() - i,
                {
                    out.push(v[i].clone());
                    i += 1;
                }
                let r = Primitive::Vec(out);
                assert(r@ =~= self@) by {
                    assert(r@->Vec_0 =~= self@->Vec_0);
                }
                r
            },
            Primitive::Binary(v) => Primitive::Binary(clone_bytes(v)),
            Primitive::Object(v) => {
                let mut out: Vec<(String, Primitive)> = Vec::new();
                let mut i: usize = 0;
                while i < v.len()
                    invariant
                        i <= v.len(),
                        out.len() == i,
                        forall|j: int|
                            0 <= j < i ==> out[j].0@ == v[j].0@ && out[j].1@ == v[j].1@,
                    decreases v.len() - i,
                {
                    out.push((v[i].0.clone(), v[i].1.clone()));
                    i += 1;
                }
                let r = Primitive::Object(out);
                assert(r@ =~= self@) by {
                    assert(r@->Object_0 =~= self@->Object_0);
                }
                r
            },
        }
    }
}

/// A primitive was read as a kind that it is not.
#[derive(Debug, Clone, PartialEq, Eq)]
pub struct ParseError {
    /// The kind that was asked for.
    pub target_type: String,
    pub msg: String,
}

/// The error for a primitive that is not of the kind `target`.
pub fn parse_error(target: String) -> (r: ParseError)
    ensures
        r.target_type@ == target@,
        r.msg@ == "Primitive is not a "@ + target@,
{
    let mut msg = String::from_str("Primitive is not a ");
    msg.append(target.as_str());
    ParseError { target_type: target, msg }
}

/// The error that says that a primitive is not of the kind `target`.
pub open spec fn is_parse_error(e: ParseError, target: Seq<char>) -> bool {
    e.target_type@ == target && e.msg@ == "Primitive is not a "@ + target
}

impl Primitive {
    /// The number that the primitive is; an error where it is no number.
    pub fn try_get_uint128(&self) -> (r: Result<u128, ParseError>)
        ensures
            match self@ {
                PrimitiveView::Uint128(v) => r == Ok::<u128, ParseError>(v),
                _ => r is Err && is_parse_error(r->Err_0, "Uint128"@),
            },
    {
        match self {
            Primitive::Uint128(value) => Ok(*value),
            _ => Err(parse_error(String::from_str("Uint128"))),
        }
    }

    /// The fraction that the primitive is; an error where it is no fraction.
    pub fn try_get_decimal(&self) -> (r: Result<Decimal, ParseError>)
        ensures
            match self@ {
                PrimitiveView::Decimal(v) => r == Ok::<Decimal, ParseError>(v),
                _ => r is Err && is_parse_error(r->Err_0, "Decimal"@),
            },
    {
        match self {
            Primitive::Decimal(value) => Ok(*value),
            _ => Err(parse_error(String::from_str("Decimal"))),
        }
    }

    /// The text that the primitive is; an error where it is no text.
    pub fn try_get_string(&self) -> (r: Result<String, ParseError>)
        ensures
            match self@ {
                PrimitiveView::String(v) => r is Ok && r->Ok_0@ == v,
                _ => r is Err && is_parse_error(r->Err_0, "String"@),
            },
    {
        match self {
            Primitive::String(value) => Ok(value.clone()),
            _ => Err(parse_error(String::from_str("String"))),
        }
    }

    /// The truth value that the primitive is; an error where it is none.
    pub fn try_get_bool(&self) -> (r: Result<bool, ParseError>)
        ensures
            match self@ {
                PrimitiveView::Bool(v) => r == Ok::<bool, ParseError>(v),
                _ => r is Err && is_parse_error(r->Err_0, "bool"@),
            },
    {
        match self {
            Primitive::Bool(value) => Ok(*value),
            _ => Err(parse_error(String::from_str("bool"))),
        }
    }

    /// The list that the primitive is; an error where it is no list.
    pub fn try_get_vec(&self) -> (r: Result<Vec<Primitive>, ParseError>)
        ensures
            match self@ {
                PrimitiveView::Vec(v) => r is Ok && r->Ok_0.deep_view() == v,
                _ => r is Err && is_parse_error(r->Err_0, "Vec"@),
            },
    {
        match self {
            Primitive::Vec(vector) => {
                let copy = self.clone();
                match copy {
                    Primitive::Vec(out) => {
                        proof {
                            lemma_list_view(out);
                        }
                        Ok(out)
                    },
                    _ => Err(parse_error(String::from_str("Vec"))),
                }
            },
            _ => Err(parse_error(String::from_str("Vec"))),
        }
    }

    /// The coin that the primitive is; an error where it is no coin.
    pub fn try_get_coin(&self) -> (r: Result<Coin, ParseError>)
        ensures
            match self@ {
                PrimitiveView::Coin(v) => r is Ok && r->Ok_0@ == v,
                _ => r is Err && is_parse_error(r->Err_0, "Coin"@),
            },
    {
        match self {
            Primitive::Coin(coin) => Ok(coin.clone()),
            _ => Err(parse_error(String::from_str("Coin"))),
        }
    }

    /// The address that the primitive is; an error where it is no address.
    pub fn try_get_addr(&self) -> (r: Result<String, ParseError>)
        ensures
            match self@ {
                PrimitiveView::Addr(v) => r is Ok && r->Ok_0@ == v,
                _ => r is Err && is_parse_error(r->Err_0, "Addr"@),
            },
    {
        match self {
            Primitive::Addr(addr) => Ok(addr.clone()),
            _ => Err(parse_error(String::from_str("Addr"))),
        }
    }

    /// The bytes that the primitive is; an error where it is no bytes.
    pub fn try_get_binary(&self) -> (r: Result<Vec<u8>, ParseError>)
        ensures
            match self@ {
                PrimitiveView::Binary(v) => r is Ok && r->Ok_0@ == v,
                _ => r is Err && is_parse_error(r->Err_0, "Binary"@),
            },
    {
        match self {
            Primitive::Binary(value) => Ok(clone_bytes(value)),
            _ => Err(parse_error(String::from_str("Binary"))),
        }
    }

    /// The named values that the primitive is; an error where it is none. The error
    /// names bytes as the kind asked for.
    pub fn try_get_object(&self) -> (r: Result<Vec<(String, Primitive)>, ParseError>)
        ensures
            match self@ {
                PrimitiveView::Object(v) => r is Ok && r->Ok_0.deep_view() == v,
                _ => r is Err && is_parse_error(r->Err_0, "Binary"@),
            },
    {
        match self {
            Primitive::Object(value) => {
                let copy = self.clone();
                match copy {
                    Primitive::Object(out) => {
                        proof {
                            lemma_object_view(out);
                        }
                        Ok(out)
                    },
                    _ => Err(parse_error(String::from_str("Binary"))),
                }
            },
            _ => Err(parse_error(String::from_str("Binary"))),
        }
    }
}

/// An answer that gives the value under a key.
#[derive(Debug, Clone, PartialEq, Eq)]
pub struct GetValueResponse {
    pub key: String,
    pub value: Primitive,
}

/// The commands of a store of primitives.
#[derive(Debug, Clone, PartialEq, Eq)]
pub enum ExecuteMsg {
    /// Sets the value under the key, or under the default key where none is given.
    SetValue { key: Option<String>, value: Primitive },
    /// Deletes the value under the key, or under the default key where none is given.
    DeleteValue { key: Option<String> },
    UpdateRestriction { restriction: PrimitiveRestriction },
}

/// The questions that a store of primitives answers.
#[derive(Debug, Clone, PartialEq, Eq)]
pub enum QueryMsg {
    GetValue { key: Option<String> },
    AllKeys {  },
    OwnerKeys { owner: String },
}

} // verus!

//! One account's credentials and the typed property values a session keeps.

use vstd::prelude::*;

verus! {

/// Credentials of one portal account. Immutable once a session starts.
#[derive(Debug, Clone)]
pub struct Account {
    pub user: String,
    pub password: String,
}

impl Account {
    /// A new account value from its two credentials.
    pub fn new(user: String, password: String) -> (r: Account)
        ensures
            r.user@ == user@,
            r.password@ == password@,
    {
        Account { user, password }
    }
}

/// One loosely typed fact a session remembers.
#[derive(Debug, Clone)]
pub enum Property {
    String(String),
    I32(i32),
    Bool(bool),
    Str(&'static str),
}

impl Property {
    /// The boolean held, if this is a boolean property.
    pub fn get_bool(&self) -> (r: Option<bool>)
        ensures
            r == (match self {
                Property::Bool(v) => Some(*v),
                _ => None::<bool>,
            }),
    {
        match self {
            Property::Bool(value) => Some(*value),
            _ => None,
        }
    }

    /// The boolean held; the caller must know this is a boolean property.
    pub fn get_bool_unwrap(&self) -> (r: bool)
        requires
            self is Bool,
        ensures
            r == self->Bool_0,
    {
        match self {
            Property::Bool(value) => *value,
            _ => unreached(),
        }
    }

    /// The integer held, if this is an integer property.
    pub fn get_i32(&self) -> (r: Option<i32>)
        ensures
            r == (match self {
                Property::I32(v) => Some(*v),
                _ => None::<i32>,
            }),
    {
        match self {
            Property::I32(value) => Some(*value),
            _ => None,
        }
    }

    /// The integer held; the caller must know this is an integer property.
    pub fn get_i32_unwrap(&self) -> (r: i32)
        requires
            self is I32,
        ensures
            r == self->I32_0,
    {
        match self {
            Property::I32(value) => *value,
            _ => unreached(),
        }
    }

    /// The owned string held, if this is an owned-string property.
    pub fn get_string(&self) -> (r: Option<String>)
        ensures
            match self {
                Property::String(v) => r is Some && r->Some_0@ == v@,
                _ => r is None,
            },
    {
        match self {
            Property::String(value) => Some(value.clone()),
            _ => None,
        }
    }

    /// The owned string held; the caller must know the property's kind.
    pub fn get_string_unwrap(&self) -> (r: String)
        requires
            self is String,
        ensures
            r@ == self->String_0@,
    {
        match self {
            Property::String(value) => value.clone(),
            _ => unreached(),
        }
    }

    /// The static string held, if this is a static-string property.
    pub fn get_str(&self) -> (r: Option<&'static str>)
        ensures
            match self {
                Property::Str(v) => r is Some && r->Some_0@ == v@,
                _ => r is None,
            },
    {
        match self {
            Property::Str(value) => Some(*value),
            _ => None,
        }
    }

    /// The static string held; the caller must know the property's kind.
    pub fn get_str_unwrap(&self) -> (r: &'static str)
        requires
            self is Str,
        ensures
            r@ == self->Str_0@,
    {
        match self {
            Property::Str(value) => *value,
            _ => unreached(),
        }
    }
}

} // verus!

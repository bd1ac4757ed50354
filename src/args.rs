use core::marker::PhantomData;
use vstd::prelude::*;

use crate::parser::{view_opt, Parser};
use crate::value::{converted, kind_ok, ArgValue, ValueKind};

verus! {

/// What the registry reads from a positional argument.
pub trait PosArgBase {
    spec fn spec_name(&self) -> Seq<char>;

    spec fn spec_desc(&self) -> Seq<char>;

    spec fn spec_kind(&self) -> ValueKind;

    fn name(&self) -> (r: &str)
        ensures
            r@ == self.spec_name(),
    ;

    fn desc(&self) -> (r: &str)
        ensures
            r@ == self.spec_desc(),
    ;

    fn kind(&self) -> (r: ValueKind)
        ensures
            r == self.spec_kind(),
            kind_ok(r),
    ;
}

/// What the registry reads from a key-value argument.
pub trait KVArgBase {
    spec fn spec_name(&self) -> Seq<char>;

    spec fn spec_desc(&self) -> Seq<char>;

    spec fn spec_short_key(&self) -> Option<char>;

    spec fn spec_kind(&self) -> ValueKind;

    fn name(&self) -> (r: &str)
        ensures
            r@ == self.spec_name(),
    ;

    fn desc(&self) -> (r: &str)
        ensures
            r@ == self.spec_desc(),
    ;

    fn short_key(&self) -> (r: Option<char>)
        ensures
            r == self.spec_short_key(),
    ;

    fn kind(&self) -> (r: ValueKind)
        ensures
            r == self.spec_kind(),
            kind_ok(r),
    ;
}

/// What the registry reads from a flag argument.
pub trait FlagArgBase {
    spec fn spec_name(&self) -> Seq<char>;

    spec fn spec_desc(&self) -> Seq<char>;

    spec fn spec_short_key(&self) -> Option<char>;

    fn name(&self) -> (r: &str)
        ensures
            r@ == self.spec_name(),
    ;

    fn desc(&self) -> (r: &str)
        ensures
            r@ == self.spec_desc(),
    ;

    fn short_key(&self) -> (r: Option<char>)
        ensures
            r == self.spec_short_key(),
    ;
}

/// A positional argument whose token converts to a `T`.
pub struct PosArg<T> {
    name: String,
    desc: String,
    marker: PhantomData<T>,
}

impl<T: ArgValue> PosArg<T> {
    pub fn new(name: String, desc: String) -> (r: Self)
        ensures
            r.spec_name() == name@,
            r.spec_desc() == desc@,
            r.spec_kind() == T::spec_kind(),
    {
        PosArg { name, desc, marker: PhantomData }
    }

    /// Whether the registry holds a value for this argument.
    pub fn found(&self, parser: &Parser) -> (r: bool)
        requires
            parser.wf(),
        ensures
            r == parser@.pos_found(self.spec_name()),
    {
        parser.pos_found(&self.name)
    }

    /// Hands out the value held for this argument and clears it.
    pub fn val(&self, parser: &mut Parser) -> (r: Option<T>)
        requires
            old(parser).wf(),
        ensures
            final(parser).wf(),
            final(parser)@ == old(parser)@.take_pos(self.spec_name()),
            view_opt(r) == converted::<T>(old(parser)@.pos_token(self.spec_name())),
    {
        match parser.take_pos(&self.name) {
            Some(tok) => T::from_token(tok.as_str()),
            None => None,
        }
    }
}

impl<T: ArgValue> PosArgBase for PosArg<T> {
    closed spec fn spec_name(&self) -> Seq<char> {
        self.name@
    }

    closed spec fn spec_desc(&self) -> Seq<char> {
        self.desc@
    }

    closed spec fn spec_kind(&self) -> ValueKind {
        T::spec_kind()
    }

    fn name(&self) -> (r: &str) {
        self.name.as_str()
    }

    fn desc(&self) -> (r: &str) {
        self.desc.as_str()
    }

    fn kind(&self) -> (r: ValueKind) {
        T::kind()
    }
}

/// A key-value argument whose value token converts to a `T`.
pub struct KVArg<T> {
    name: String,
    desc: String,
    short_key: Option<char>,
    marker: PhantomData<T>,
}

impl<T: ArgValue> KVArg<T> {
    pub fn new(name: String, short_key: Option<char>, desc: String) -> (r: Self)
        ensures
            r.spec_name() == name@,
            r.spec_desc() == desc@,
            r.spec_short_key() == short_key,
            r.spec_kind() == T::spec_kind(),
    {
        KVArg { name, desc, short_key, marker: PhantomData }
    }

    /// Whether the registry holds a value for this argument.
    pub fn found(&self, parser: &Parser) -> (r: bool)
        requires
            parser.wf(),
        ensures
            r == parser@.kv_found(self.spec_name()),
    {
        parser.kv_found(&self.name)
    }

    /// Hands out the value held for this argument and clears it.
    pub fn val(&self, parser: &mut Parser) -> (r: Option<T>)
        requires
            old(parser).wf(),
        ensures
            final(parser).wf(),
            final(parser)@ == old(parser)@.take_kv(self.spec_name()),
            view_opt(r) == converted::<T>(old(parser)@.kv_token(self.spec_name())),
    {
        match parser.take_kv(&self.name) {
            Some(tok) => T::from_token(tok.as_str()),
            None => None,
        }
    }
}

impl<T: ArgValue> KVArgBase for KVArg<T> {
    closed spec fn spec_name(&self) -> Seq<char> {
        self.name@
    }

    closed spec fn spec_desc(&self) -> Seq<char> {
        self.desc@
    }

    closed spec fn spec_short_key(&self) -> Option<char> {
        self.short_key
    }

    closed spec fn spec_kind(&self) -> ValueKind {
        T::spec_kind()
    }

    fn name(&self) -> (r: &str) {
        self.name.as_str()
    }

    fn desc(&self) -> (r: &str) {
        self.desc.as_str()
    }

    fn short_key(&self) -> (r: Option<char>) {
        self.short_key
    }

    fn kind(&self) -> (r: ValueKind) {
        T::kind()
    }
}

/// A flag: present or absent, with no value token.
pub struct FlagArg {
    name: String,
    desc: String,
    short_key: Option<char>,
}

impl FlagArg {
    pub fn new(name: String, desc: String, short_key: Option<char>) -> (r: Self)
        ensures
            r.spec_name() == name@,
            r.spec_desc() == desc@,
            r.spec_short_key() == short_key,
    {
        FlagArg { name, desc, short_key }
    }

    /// Whether the flag was supplied.
    pub fn found(&self, parser: &Parser) -> (r: bool)
        requires
            parser.wf(),
        ensures
            r == parser@.flag_found(self.spec_name()),
    {
        parser.flag_found(&self.name)
    }
}

impl FlagArgBase for FlagArg {
    closed spec fn spec_name(&self) -> Seq<char> {
        self.name@
    }

    closed spec fn spec_desc(&self) -> Seq<char> {
        self.desc@
    }

    closed spec fn spec_short_key(&self) -> Option<char> {
        self.short_key
    }

    fn name(&self) -> (r: &str) {
        self.name.as_str()
    }

    fn desc(&self) -> (r: &str) {
        self.desc.as_str()
    }

    fn short_key(&self) -> (r: Option<char>) {
        self.short_key
    }
}

} // verus!

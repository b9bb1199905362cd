use vstd::prelude::*;

use crate::column::Column;
use crate::element::Element;
use crate::query::Queryable;

verus! {

/// The element types that a registry can hold.
#[derive(Debug, Clone, Copy, PartialEq, Eq, Structural)]
pub enum Kind {
    Int32,
    Int64,
    UInt64,
    Text,
}

/// A column of one of the element types that a registry can hold, tagged by
/// that type.
pub enum Entry {
    Int32(Column<i32>),
    Int64(Column<i64>),
    UInt64(Column<u64>),
    Text(Column<String>),
}

impl Entry {
    /// The element type of the column.
    pub open spec fn kind(&self) -> Kind {
        match self {
            Entry::Int32(_) => Kind::Int32,
            Entry::Int64(_) => Kind::Int64,
            Entry::UInt64(_) => Kind::UInt64,
            Entry::Text(_) => Kind::Text,
        }
    }

    /// The column keeps its own invariant.
    pub open spec fn valid(&self) -> bool {
        match self {
            Entry::Int32(c) => c.valid(),
            Entry::Int64(c) => c.valid(),
            Entry::UInt64(c) => c.valid(),
            Entry::Text(c) => c.valid(),
        }
    }

    /// The column is stored densely.
    pub open spec fn is_dense(&self) -> bool {
        match self {
            Entry::Int32(c) => c is Vec,
            Entry::Int64(c) => c is Vec,
            Entry::UInt64(c) => c is Vec,
            Entry::Text(c) => c is Vec,
        }
    }

    /// The element type of the column.
    pub fn element_kind(&self) -> (r: Kind)
        ensures
            r == self.kind(),
    {
        match self {
            Entry::Int32(_) => Kind::Int32,
            Entry::Int64(_) => Kind::Int64,
            Entry::UInt64(_) => Kind::UInt64,
            Entry::Text(_) => Kind::Text,
        }
    }
}

/// An element type that a registry can hold: it can put a column of its own in
/// an entry, and take it back out of an entry of its kind.
pub trait Stored: Element {
    /// The tag of this element type.
    spec fn kind() -> Kind;

    /// The entry that holds `col`.
    spec fn wrapped(col: Column<Self>) -> Entry;

    /// The column that an entry of this kind holds.
    spec fn unwrapped(e: Entry) -> Column<Self>;

    /// An entry made from a column is of this kind and gives that column back.
    proof fn lemma_wrapped(col: Column<Self>)
        ensures
            Self::wrapped(col).kind() == Self::kind(),
            Self::unwrapped(Self::wrapped(col)) == col,
            Self::wrapped(col).valid() == col.valid(),
            Self::wrapped(col).is_dense() == col is Vec,
    ;

    /// The tag of this element type.
    fn kind_of() -> (r: Kind)
        ensures
            r == Self::kind(),
    ;

    /// Puts `col` in an entry of this kind.
    fn wrap(col: Column<Self>) -> (e: Entry)
        ensures
            e == Self::wrapped(col),
            e.kind() == Self::kind(),
            Self::unwrapped(e) == col,
            e.valid() == col.valid(),
            e.is_dense() == col is Vec,
    ;

    /// The column of `e`, if `e` is of this kind.
    fn peek(e: &Entry) -> (r: Option<&Column<Self>>)
        ensures
            r is Some <==> e.kind() == Self::kind(),
            r matches Some(c) ==> *c == Self::unwrapped(*e) && (c.valid() == e.valid()) && (c is Vec) == e.is_dense(),
    ;

    /// The column of `e`, for writing, if `e` is of this kind; `e` then holds
    /// what the column becomes.
    fn peek_mut(e: &mut Entry) -> (r: Option<&mut Column<Self>>)
        ensures
            r is Some <==> old(e).kind() == Self::kind(),
            r matches Some(c) ==> {
                &&& *c == Self::unwrapped(*old(e))
                &&& c.valid() == old(e).valid()
                &&& (*c is Vec) == old(e).is_dense()
                &&& *final(e) == Self::wrapped(*final(c))
                &&& Self::unwrapped(*final(e)) == *final(c)
                &&& final(e).kind() == Self::kind()
                &&& final(e).valid() == final(c).valid()
                &&& final(e).is_dense() == (*final(c) is Vec)
            },
            r is None ==> *final(e) == *old(e),
    ;
}

impl Stored for i32 {
    open spec fn kind() -> Kind {
        Kind::Int32
    }

    open spec fn wrapped(col: Column<i32>) -> Entry {
        Entry::Int32(col)
    }

    open spec fn unwrapped(e: Entry) -> Column<i32> {
        e->Int32_0
    }

    proof fn lemma_wrapped(col: Column<i32>) {
    }

    fn kind_of() -> (r: Kind) {
        Kind::Int32
    }

    fn wrap(col: Column<i32>) -> (e: Entry) {
        Entry::Int32(col)
    }

    fn peek(e: &Entry) -> (r: Option<&Column<i32>>) {
        match e {
            Entry::Int32(c) => Some(c),
            _ => None,
        }
    }

    fn peek_mut(e: &mut Entry) -> (r: Option<&mut Column<i32>>) {
        match e {
            Entry::Int32(c) => Some(c),
            _ => None,
        }
    }
}

impl Stored for i64 {
    open spec fn kind() -> Kind {
        Kind::Int64
    }

    open spec fn wrapped(col: Column<i64>) -> Entry {
        Entry::Int64(col)
    }

    open spec fn unwrapped(e: Entry) -> Column<i64> {
        e->Int64_0
    }

    proof fn lemma_wrapped(col: Column<i64>) {
    }

    fn kind_of() -> (r: Kind) {
        Kind::Int64
    }

    fn wrap(col: Column<i64>) -> (e: Entry) {
        Entry::Int64(col)
    }

    fn peek(e: &Entry) -> (r: Option<&Column<i64>>) {
        match e {
            Entry::Int64(c) => Some(c),
            _ => None,
        }
    }

    fn peek_mut(e: &mut Entry) -> (r: Option<&mut Column<i64>>) {
        match e {
            Entry::Int64(c) => Some(c),
            _ => None,
        }
    }
}

impl Stored for u64 {
    open spec fn kind() -> Kind {
        Kind::UInt64
    }

    open spec fn wrapped(col: Column<u64>) -> Entry {
        Entry::UInt64(col)
    }

    open spec fn unwrapped(e: Entry) -> Column<u64> {
        e->UInt64_0
    }

    proof fn lemma_wrapped(col: Column<u64>) {
    }

    fn kind_of() -> (r: Kind) {
        Kind::UInt64
    }

    fn wrap(col: Column<u64>) -> (e: Entry) {
        Entry::UInt64(col)
    }

    fn peek(e: &Entry) -> (r: Option<&Column<u64>>) {
        match e {
            Entry::UInt64(c) => Some(c),
            _ => None,
        }
    }

    fn peek_mut(e: &mut Entry) -> (r: Option<&mut Column<u64>>) {
        match e {
            Entry::UInt64(c) => Some(c),
            _ => None,
        }
    }
}

impl Stored for String {
    open spec fn kind() -> Kind {
        Kind::Text
    }

    open spec fn wrapped(col: Column<String>) -> Entry {
        Entry::Text(col)
    }

    open spec fn unwrapped(e: Entry) -> Column<String> {
        e->Text_0
    }

    proof fn lemma_wrapped(col: Column<String>) {
    }

    fn kind_of() -> (r: Kind) {
        Kind::Text
    }

    fn wrap(col: Column<String>) -> (e: Entry) {
        Entry::Text(col)
    }

    fn peek(e: &Entry) -> (r: Option<&Column<String>>) {
        match e {
            Entry::Text(c) => Some(c),
            _ => None,
        }
    }

    fn peek_mut(e: &mut Entry) -> (r: Option<&mut Column<String>>) {
        match e {
            Entry::Text(c) => Some(c),
            _ => None,
        }
    }
}

} // verus!

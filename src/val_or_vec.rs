use crate::error::Error;
use vstd::prelude::*;

verus! {

/// The values that one key received: one value, or two or more in the
/// order in which they occurred.
#[derive(Debug, Clone, PartialEq, Eq)]
pub enum ValOrVec<T> {
    Val(T),
    Vec(Vec<T>),
}

/// What a type-directed consumer asks a value to be.
#[derive(Debug, Clone, Copy, PartialEq, Eq, Structural)]
pub enum Request {
    Bool,
    Char,
    Str,
    String,
    Bytes,
    ByteBuf,
    Unit,
    U8,
    U16,
    U32,
    U64,
    I8,
    I16,
    I32,
    I64,
    F32,
    F64,
    Option,
    Identifier,
    Mapping,
    Enum,
    Tuple,
    Struct,
    UnitStruct,
    TupleStruct,
    NewtypeStruct,
    Sequence,
    Any,
    IgnoredAny,
}

/// How a request is to be answered.
#[derive(Debug, Clone, PartialEq, Eq)]
pub enum Route<T> {
    /// Hand this one value to the scalar codec, with the same request.
    Forward(T),
    /// Answer with a sequence whose elements go to the scalar codec one by one.
    Elements(Vec<T>),
    /// Answer with a unit, whatever the values were.
    Unit,
}

/// The mathematical form of a dispatch outcome.
pub ghost enum RouteView<T> {
    Forward(T),
    Elements(Seq<T>),
    Unit,
    Unsupported,
}

impl<T> Route<T> {
    pub open spec fn view(self) -> RouteView<T> {
        match self {
            Route::Forward(v) => RouteView::Forward(v),
            Route::Elements(l) => RouteView::Elements(l@),
            Route::Unit => RouteView::Unit,
        }
    }
}

/// The outcome of a dispatch result, an error being `Unsupported`.
pub open spec fn outcome<T>(r: Result<Route<T>, Error>) -> RouteView<T> {
    match r {
        Ok(route) => route.view(),
        Err(_) => RouteView::Unsupported,
    }
}

/// The dispatch table: how a request is answered for the given values of a key.
pub open spec fn dispatch_outcome<T>(values: Seq<T>, req: Request) -> RouteView<T> {
    if req == Request::IgnoredAny {
        RouteView::Unit
    } else if values.len() == 1 {
        if req == Request::Sequence {
            RouteView::Elements(values)
        } else {
            RouteView::Forward(values[0])
        }
    } else if req == Request::Sequence || req == Request::Any {
        RouteView::Elements(values)
    } else {
        RouteView::Unsupported
    }
}

impl<T> ValOrVec<T> {
    /// The values in occurrence order.
    pub open spec fn values(self) -> Seq<T> {
        match self {
            ValOrVec::Val(v) => seq![v],
            ValOrVec::Vec(l) => l@,
        }
    }

    /// A list holds at least two values: one value is always a `Val`.
    pub open spec fn wf(self) -> bool {
        match self {
            ValOrVec::Val(_) => true,
            ValOrVec::Vec(l) => l@.len() >= 2,
        }
    }

    /// Builds the shape of a non-empty list of values.
    pub fn from_values(values: Vec<T>) -> (r: Self)
        requires
            values@.len() >= 1,
        ensures
            r.wf(),
            r.values() == values@,
            r is Val <==> values@.len() == 1,
    {
        if values.len() == 1 {
            let ghost all = values@;
            let mut rest = values;
            let v = rest.pop().unwrap();
            assert(seq![v] =~= all);
            ValOrVec::Val(v)
        } else {
            ValOrVec::Vec(values)
        }
    }

    /// The single value, or an error if the key occurred more than once.
    pub fn into_val(self) -> (r: Result<T, Error>)
        requires
            self.wf(),
        ensures
            self is Val ==> r == Ok::<T, Error>(self.values()[0]),
            self is Vec ==> r == Err::<T, Error>(Error::Unsupported),
    {
        match self {
            ValOrVec::Val(v) => Ok(v),
            ValOrVec::Vec(_) => Err(Error::Unsupported),
        }
    }

    /// Decides how to answer `req` for these values: a single value is
    /// forwarded to the scalar codec (or read as a one-element sequence), a
    /// list only satisfies a sequence or an untyped request, and an ignored
    /// value is a unit whatever it holds.
    pub fn dispatch(self, req: Request) -> (r: Result<Route<T>, Error>)
        requires
            self.wf(),
        ensures
            outcome(r) == dispatch_outcome(self.values(), req),
            r is Err ==> r == Err::<Route<T>, Error>(Error::Unsupported),
    {
        if req == Request::IgnoredAny {
            return Ok(Route::Unit);
        }
        match self {
            ValOrVec::Val(v) => {
                if req == Request::Sequence {
                    let l = vec![v];
                    assert(l@ =~= seq![v]);
                    Ok(Route::Elements(l))
                } else {
                    Ok(Route::Forward(v))
                }
            },
            ValOrVec::Vec(l) => {
                if req == Request::Sequence || req == Request::Any {
                    Ok(Route::Elements(l))
                } else {
                    Err(Error::Unsupported)
                }
            },
        }
    }
}

} // verus!

//! Handles to assets that may still be loading.
//!
//! A handle is read every frame and never blocks: the asset is there, or it is
//! still loading, or its load has failed for good. A loader fills it once.

use std::sync::{Arc, OnceLock};
use vstd::prelude::*;

verus! {

/// `std::sync::OnceLock`: a cell that is written once.
#[verifier::external_type_specification]
#[verifier::external_body]
#[verifier::reject_recursive_types(T)]
pub struct ExOnceLock<T>(std::sync::OnceLock<T>);

/// `OnceLock::new` of std: an empty cell. Looked at before anything is written,
/// it shows nothing.
pub assume_specification<T>[ OnceLock::<T>::new ]() -> (r: OnceLock<T>)
    ensures
        call_ensures(OnceLock::<T>::get, (&r,), None),
;

/// `OnceLock::get` of std: what the cell holds, if it has been written. Whether
/// it has depends on what other threads have done, so nothing is claimed.
pub assume_specification<T>[ OnceLock::<T>::get ](cell: &OnceLock<T>) -> (r: Option<&T>)
;

/// The cell was written with `value`: `OnceLock::get` can give it, and never
/// gives another value. A look before the write gave none.
pub open spec fn written<T>(cell: OnceLock<T>, value: T) -> bool {
    &&& call_ensures(OnceLock::<T>::get, (&cell,), Some(&value))
    &&& forall|shown: Option<&T>| #[trigger]
        call_ensures(OnceLock::<T>::get, (&cell,), shown) ==> (shown matches Some(v) ==> *v
            == value)
}

/// `OnceLock::get` of std, seen: a value that it shows is the one that the cell
/// was written with. A cell is written once and not changed again.
#[verifier::external_body]
fn look<T>(cell: &OnceLock<T>) -> (r: Option<&T>)
    ensures
        call_ensures(OnceLock::<T>::get, (cell,), r),
        r matches Some(v) ==> written(*cell, *v),
{
    cell.get()
}

/// `OnceLock::set` of std: writes an empty cell, which then holds the value for
/// good. A cell that was written before keeps what it holds, and the value is
/// handed back. Either way the cell is written when the call returns.
pub assume_specification<T>[ OnceLock::<T>::set ](cell: &OnceLock<T>, value: T) -> (r: Result<
    (),
    T,
>)
    ensures
        match r {
            Ok(_) => written(*cell, value),
            Err(v) => v == value && exists|held: T| #[trigger] written(*cell, held),
        },
;

/// `OnceLock::from` of std: a cell that was made with its value, so that every
/// look at it gives the value.
#[verifier::external_body]
fn full_cell<T>(value: T) -> (r: OnceLock<T>)
    ensures
        forall|shown: Option<&T>| #[trigger]
            call_ensures(OnceLock::<T>::get, (&r,), shown) ==> shown == Some(&value),
{
    OnceLock::from(value)
}

/// `Arc::ptr_eq` of std: whether the two point to the same place. Two cells are
/// equal here only if they are one cell. A slot has a cell of its own and is
/// never copied, so equal slots are one slot in one place.
#[verifier::external_body]
fn same_place<T>(a: &Arc<HandleSlot<T>>, b: &Arc<HandleSlot<T>>) -> (r: bool)
    ensures
        r == (**a == **b),
{
    Arc::ptr_eq(a, b)
}

/// `Arc::clone` of std: another pointer to the same value.
#[verifier::external_body]
fn share<T>(a: &Arc<T>) -> (r: Arc<T>)
    ensures
        *r == **a,
{
    Arc::clone(a)
}

/// Why a load failed.
#[derive(Debug, Clone)]
pub struct HandleError {
    message: String,
}

impl View for HandleError {
    type V = Seq<char>;

    /// The message.
    closed spec fn view(&self) -> Seq<char> {
        self.message@
    }
}

impl HandleError {
    /// An error with the given message.
    pub fn new(message: &str) -> (r: Self)
        ensures
            r@ == message@,
    {
        HandleError { message: message.to_owned() }
    }

    pub fn message(&self) -> (r: &str)
        ensures
            r@ == self@,
    {
        self.message.as_str()
    }
}

/// What is behind a handle: the cell that its loader fills, and what the handle
/// was made for.
#[verifier::reject_recursive_types(T)]
struct HandleSlot<T> {
    result: OnceLock<Result<T, HandleError>>,
    label: String,
}

/// What a handle refers to at the moment.
#[derive(Debug)]
pub enum HandleState<'a, T> {
    /// The load is under way, or has not started.
    Loading,
    /// The asset is there.
    Ready(&'a T),
    /// The load has failed, for good.
    Failed(&'a HandleError),
}

/// The state that a slot's result stands for.
pub open spec fn state_of<'a, T>(result: Option<&'a Result<T, HandleError>>) -> HandleState<'a, T> {
    match result {
        None => HandleState::Loading,
        Some(Ok(value)) => HandleState::Ready(value),
        Some(Err(error)) => HandleState::Failed(error),
    }
}

/// The state that a slot's result stands for: nothing yet is loading.
pub fn classify<'a, T>(result: Option<&'a Result<T, HandleError>>) -> (r: HandleState<'a, T>)
    ensures
        r == state_of(result),
{
    match result {
        None => HandleState::Loading,
        Some(Ok(value)) => HandleState::Ready(value),
        Some(Err(error)) => HandleState::Failed(error),
    }
}

/// A shared reference to an asset that may still be loading.
#[verifier::reject_recursive_types(T)]
pub struct Handle<T> {
    inner: Arc<HandleSlot<T>>,
}

impl<T> Handle<T> {
    /// The handle can be seen to hold `shown`, now or later.
    pub closed spec fn can_hold(self, shown: Option<&Result<T, HandleError>>) -> bool {
        call_ensures(OnceLock::<Result<T, HandleError>>::get, (&self.inner.result,), shown)
    }

    /// The handle has this result from the start: every look at it gives it.
    pub open spec fn settled_as(self, result: Result<T, HandleError>) -> bool {
        forall|shown: Option<&Result<T, HandleError>>| #[trigger]
            self.can_hold(shown) ==> shown == Some(&result)
    }

    /// The handle was filled with this result: it can be seen to hold it, and
    /// whenever it is looked at, it is loading or has this result.
    pub open spec fn filled_with(self, result: Result<T, HandleError>) -> bool {
        &&& self.can_hold(Some(&result))
        &&& forall|shown: Option<&Result<T, HandleError>>| #[trigger]
            self.can_hold(shown) ==> (shown matches Some(r) ==> *r == result)
    }

    /// A look at the handle can give `shown`: nothing, or the result that it was
    /// filled with.
    pub open spec fn can_show(self, shown: Option<&Result<T, HandleError>>) -> bool {
        &&& self.can_hold(shown)
        &&& shown matches Some(result) ==> self.filled_with(*result)
    }

    pub closed spec fn spec_label(self) -> Seq<char> {
        self.inner.label@
    }

    /// A handle whose asset is there.
    pub fn ready(value: T) -> (r: Self)
        ensures
            r.settled_as(Ok(value)),
            r.spec_label().len() == 0,
    {
        Handle {
            inner: Arc::new(HandleSlot { result: full_cell(Ok(value)), label: String::new() }),
        }
    }

    /// A handle whose load has failed.
    pub fn failed(error: HandleError) -> (r: Self)
        ensures
            r.settled_as(Err(error)),
            r.spec_label().len() == 0,
    {
        Handle {
            inner: Arc::new(HandleSlot { result: full_cell(Err(error)), label: String::new() }),
        }
    }

    /// What the slot holds.
    fn result(&self) -> (r: Option<&Result<T, HandleError>>)
        ensures
            self.can_show(r),
    {
        look(&self.inner.result)
    }

    /// The state at this moment. A handle that is seen with a result is never
    /// seen with another. A settled handle is in the state of its
    /// result; one that a loader fills is in the state that the loader has
    /// brought about so far.
    pub fn peek(&self) -> (r: HandleState<'_, T>)
        ensures
            exists|shown: Option<&Result<T, HandleError>>| #[trigger]
                self.can_show(shown) && r == state_of(shown),
    {
        classify(self.result())
    }

    pub fn is_ready(&self) -> (r: bool)
        ensures
            exists|shown: Option<&Result<T, HandleError>>| #[trigger]
                self.can_show(shown) && r == (state_of(shown) is Ready),
    {
        match self.peek() {
            HandleState::Ready(_) => true,
            _ => false,
        }
    }

    pub fn is_loading(&self) -> (r: bool)
        ensures
            exists|shown: Option<&Result<T, HandleError>>| #[trigger]
                self.can_show(shown) && r == (state_of(shown) is Loading),
    {
        match self.peek() {
            HandleState::Loading => true,
            _ => false,
        }
    }

    pub fn is_failed(&self) -> (r: bool)
        ensures
            exists|shown: Option<&Result<T, HandleError>>| #[trigger]
                self.can_show(shown) && r == (state_of(shown) is Failed),
    {
        match self.peek() {
            HandleState::Failed(_) => true,
            _ => false,
        }
    }

    /// What the handle was made for, often a path.
    pub fn label(&self) -> (r: &str)
        ensures
            r@ == self.spec_label(),
    {
        self.inner.label.as_str()
    }

    /// Whether the two are handles to the same load, and so the same handle.
    /// Handles to different loads are different even if their assets are equal.
    pub fn ptr_eq(a: &Self, b: &Self) -> (r: bool)
        ensures
            r == (*a == *b),
    {
        same_place(&a.inner, &b.inner)
    }
}

impl<T> Clone for Handle<T> {
    /// Another handle to the same load.
    fn clone(&self) -> (r: Self)
        ensures
            r == *self,
    {
        Handle { inner: share(&self.inner) }
    }
}

/// A handle that is loading, and the writer that fills it.
pub fn new_pending<T>(label: &str) -> (r: (Handle<T>, HandleWriter<T>))
    ensures
        r.0.can_hold(None),
        r.0.spec_label() == label@,
        r.1.handle() == r.0,
{
    let inner = Arc::new(
        HandleSlot { result: OnceLock::new(), label: label.to_owned() },
    );
    let slot = share(&inner);
    (Handle { inner }, HandleWriter { slot })
}

/// The side of a handle that a loader fills. It is used up by that.
#[verifier::reject_recursive_types(T)]
pub struct HandleWriter<T> {
    slot: Arc<HandleSlot<T>>,
}

impl<T> HandleWriter<T> {
    /// The handle that it fills.
    pub closed spec fn handle(self) -> Handle<T> {
        Handle { inner: self.slot }
    }

    /// Filling the handle with `result` can leave it like this: it was filled
    /// with the result, or with another before.
    pub open spec fn fills(self, result: Result<T, HandleError>, first: bool) -> bool {
        if first {
            self.handle().filled_with(result)
        } else {
            exists|held: Result<T, HandleError>| #[trigger] self.handle().filled_with(held)
        }
    }

    /// The asset is there. If this is the first to fill the handle, the handle
    /// has the asset for good; otherwise it keeps what it has.
    pub fn set_ready(self, value: T) -> (first: bool)
        ensures
            self.fills(Ok(value), first),
    {
        self.fill(Ok(value))
    }

    /// The load has failed. If this is the first to fill the handle, the handle
    /// has the error for good; otherwise it keeps what it has.
    pub fn set_failed(self, error: HandleError) -> (first: bool)
        ensures
            self.fills(Err(error), first),
    {
        self.fill(Err(error))
    }

    fn fill(self, result: Result<T, HandleError>) -> (first: bool)
        ensures
            self.fills(result, first),
    {
        match self.slot.result.set(result) {
            Ok(_) => true,
            Err(_) => {
                proof {
                    let held = choose|held: Result<T, HandleError>|
                        written(self.slot.result, held);
                    assert(self.handle().filled_with(held));
                }
                false
            },
        }
    }
}

/// A clone is a handle to the same load, and is seen to hold what the handle
/// that it was made from is seen to hold.
pub proof fn law_clones_are_the_same_handle<T>(handle: Handle<T>, clone: Handle<T>, same: bool)
    requires
        call_ensures(<Handle<T> as Clone>::clone, (&handle,), clone),
        call_ensures(Handle::<T>::ptr_eq, (&handle, &clone), same),
    ensures
        same,
        forall|shown: Option<&Result<T, HandleError>>| #[trigger]
            clone.can_hold(shown) == handle.can_hold(shown),
{
}

/// Two looks at a handle, or at it and a clone of it, never show different
/// results: what is seen once was not and will not be overwritten.
pub proof fn law_looks_agree<T>(
    handle: Handle<T>,
    clone: Handle<T>,
    first: Option<&Result<T, HandleError>>,
    second: Option<&Result<T, HandleError>>,
)
    requires
        call_ensures(<Handle<T> as Clone>::clone, (&handle,), clone),
        handle.can_show(first),
        clone.can_show(second),
    ensures
        first is None || second is None || first == second,
        state_of(first) is Loading || state_of(second) is Loading || state_of(first) == state_of(
            second,
        ),
{
}

/// Of the three questions about a handle the answers fit each other and the
/// handle's state: a handle that is seen ready is never seen failed, and one
/// that had its result from the start is never seen loading.
pub proof fn law_answers_fit<T>(handle: Handle<T>, shown: Option<&Result<T, HandleError>>)
    requires
        handle.can_show(shown),
    ensures
        call_ensures(Handle::<T>::is_ready, (&handle,), true) ==> !call_ensures(
            Handle::<T>::is_failed,
            (&handle,),
            true,
        ),
        state_of(shown) is Ready ==> !call_ensures(Handle::<T>::is_failed, (&handle,), true),
        state_of(shown) is Failed ==> !call_ensures(Handle::<T>::is_ready, (&handle,), true),
        forall|result: Result<T, HandleError>| #[trigger]
            handle.settled_as(result) ==> {
                &&& !call_ensures(Handle::<T>::is_loading, (&handle,), true)
                &&& state_of(shown) == state_of(Some(&result))
            },
{
}

/// A handle that was filled shows what it was filled with and nothing else,
/// whenever it is looked at.
pub proof fn law_handles_keep_their_result<T>(
    handle: Handle<T>,
    result: Result<T, HandleError>,
    shown: Option<&Result<T, HandleError>>,
)
    requires
        handle.filled_with(result),
        handle.can_hold(shown),
    ensures
        state_of(shown) is Loading || state_of(shown) == state_of(Some(&result)),
{
}

/// What a result stands for: none is loading, a value is ready and an error has
/// failed, each with what it holds.
pub proof fn law_results_are_told_apart<T>(
    result: Option<&Result<T, HandleError>>,
    state: HandleState<'_, T>,
)
    requires
        call_ensures(classify::<T>, (result,), state),
    ensures
        state is Loading <==> result is None,
        state matches HandleState::Ready(value) ==> result is Some && *result->0 == Ok::<
            T,
            HandleError,
        >(*value),
        state matches HandleState::Failed(error) ==> result is Some && *result->0 == Err::<
            T,
            HandleError,
        >(*error),
{
}

/// A handle that was made with a value is ready with it whenever it is looked
/// at, and one that was made with an error has failed with it.
pub proof fn law_settled_handles_show_what_they_were_made_with<T>(
    value: T,
    ready: Handle<T>,
    of_ready: HandleState<'_, T>,
    error: HandleError,
    failed: Handle<T>,
    of_failed: HandleState<'_, T>,
)
    requires
        call_ensures(Handle::<T>::ready, (value,), ready),
        call_ensures(Handle::<T>::peek, (&ready,), of_ready),
        call_ensures(Handle::<T>::failed, (error,), failed),
        call_ensures(Handle::<T>::peek, (&failed,), of_failed),
    ensures
        of_ready matches HandleState::Ready(seen) && *seen == value,
        of_failed matches HandleState::Failed(seen) && *seen == error,
        !call_ensures(Handle::<T>::is_ready, (&ready,), false),
        !call_ensures(Handle::<T>::is_loading, (&ready,), true),
        !call_ensures(Handle::<T>::is_failed, (&ready,), true),
        !call_ensures(Handle::<T>::is_ready, (&failed,), true),
        !call_ensures(Handle::<T>::is_loading, (&failed,), true),
        !call_ensures(Handle::<T>::is_failed, (&failed,), false),
{
}

} // verus!

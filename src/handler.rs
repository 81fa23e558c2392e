use vstd::prelude::*;

use crate::tco;
use crate::tmiv;

verus! {

/// Why a handler or a hook refused a request.
#[derive(Debug, Clone, Copy, PartialEq, Eq, Structural)]
pub enum HandleError {
    /// A TCO does not match its schema.
    InvalidCommand(tco::SanitizeError),
    /// A TMIV does not match its schema.
    InvalidTelemetry(tmiv::SanitizeError),
}

/// Handles a request and answers it.
pub trait Handle<Request> {
    type Response;

    fn handle(&mut self, request: Request) -> Result<Self::Response, HandleError>;
}

/// Wraps a handler in another one.
pub trait Layer<H> {
    type Handle;

    fn layer(self, handle: H) -> Self::Handle;
}

/// Transforms a request before it goes on.
pub trait Hook<Input> {
    type Output;

    fn hook(&mut self, input: Input) -> Result<Self::Output, HandleError>;
}

/// The layer that puts `hook` in front of a handler.
pub struct BeforeHookLayer<K> {
    pub hook: K,
}

impl<K> BeforeHookLayer<K> {
    pub fn new(hook: K) -> (r: BeforeHookLayer<K>)
        ensures
            r.hook == hook,
    {
        BeforeHookLayer { hook }
    }
}

impl<K, H> Layer<H> for BeforeHookLayer<K> {
    type Handle = BeforeHook<H, K>;

    fn layer(self, inner: H) -> BeforeHook<H, K> {
        BeforeHook { hook: self.hook, inner }
    }
}

/// A handler whose requests first go through a hook.
pub struct BeforeHook<H, K> {
    pub hook: K,
    pub inner: H,
}

impl<Q, H, K> Handle<Q> for BeforeHook<H, K> where K: Hook<Q>, H: Handle<K::Output> {
    type Response = H::Response;

    fn handle(&mut self, request: Q) -> Result<H::Response, HandleError> {
        let next_request = self.hook.hook(request)?;
        self.inner.handle(next_request)
    }
}

/// Two handlers answering with an option: the second is asked only where
/// the first answers `None`.
pub struct Choice<X, Y> {
    pub first: X,
    pub second: Y,
}

impl<X, Y> Choice<X, Y> {
    pub fn new(first: X, second: Y) -> (r: Choice<X, Y>)
        ensures
            r.first == first,
            r.second == second,
    {
        Choice { first, second }
    }
}

impl<Q: Clone, S, X, Y> Handle<Q> for Choice<X, Y> where
    X: Handle<Q, Response = Option<S>>,
    Y: Handle<Q, Response = Option<S>>,
 {
    type Response = Option<S>;

    fn handle(&mut self, request: Q) -> Result<Option<S>, HandleError> {
        match self.first.handle(request.clone())? {
            Some(ret) => Ok(Some(ret)),
            None => self.second.handle(request),
        }
    }
}

/// Puts a handler before or after another one in a [`Choice`].
pub trait HandleChoiceExt<Q>: Handle<Q> + Sized {
    fn prepend<X>(self, first: X) -> Choice<X, Self> {
        Choice { first, second: self }
    }

    fn append<Y>(self, second: Y) -> Choice<Self, Y> {
        Choice { first: self, second }
    }
}

impl<T, Q> HandleChoiceExt<Q> for T where T: Handle<Q> {
}

/// The layer that changes nothing.
pub struct Identity;

impl<H> Layer<H> for Identity {
    type Handle = H;

    fn layer(self, inner: H) -> H {
        inner
    }
}

/// One of two layers, or one of two handlers.
pub enum Either<A, B> {
    A(A),
    B(B),
}

impl<A, B, H> Layer<H> for Either<A, B> where A: Layer<H>, B: Layer<H> {
    type Handle = Either<A::Handle, B::Handle>;

    fn layer(self, inner: H) -> Either<A::Handle, B::Handle> {
        match self {
            Either::A(a) => Either::A(a.layer(inner)),
            Either::B(b) => Either::B(b.layer(inner)),
        }
    }
}

impl<A, B, Q> Handle<Q> for Either<A, B> where A: Handle<Q>, B: Handle<Q, Response = A::Response> {
    type Response = A::Response;

    fn handle(&mut self, request: Q) -> Result<A::Response, HandleError> {
        match self {
            Either::A(a) => a.handle(request),
            Either::B(b) => b.handle(request),
        }
    }
}

/// `inner` applied first, then `outer`.
pub struct Stack<I, O> {
    pub inner: I,
    pub outer: O,
}

impl<I, O> Stack<I, O> {
    pub fn new(inner: I, outer: O) -> (r: Stack<I, O>)
        ensures
            r.inner == inner,
            r.outer == outer,
    {
        Stack { inner, outer }
    }
}

impl<I, O, H> Layer<H> for Stack<I, O> where I: Layer<H>, O: Layer<I::Handle> {
    type Handle = O::Handle;

    fn layer(self, handle: H) -> O::Handle {
        self.outer.layer(self.inner.layer(handle))
    }
}

/// Collects layers; the first added ends up closest to the handler.
pub struct Builder<L> {
    layer: L,
}

impl Builder<Identity> {
    pub fn new() -> Builder<Identity> {
        Builder { layer: Identity }
    }
}

impl<L> Builder<L> {
    pub fn layer<I>(self, layer: I) -> Builder<Stack<I, L>> {
        Builder { layer: Stack::new(layer, self.layer) }
    }

    pub fn option_layer<I>(self, layer: Option<I>) -> Builder<Stack<Either<I, Identity>, L>> {
        let inner = match layer {
            Some(layer) => Either::A(layer),
            None => Either::B(Identity),
        };
        Builder { layer: Stack::new(inner, self.layer) }
    }

    pub fn before_hook<K>(self, hook: K) -> Builder<Stack<BeforeHookLayer<K>, L>> {
        let before_hook = BeforeHookLayer::new(hook);
        self.layer(before_hook)
    }

    pub fn build<H>(self, handle: H) -> L::Handle where L: Layer<H> {
        self.layer.layer(handle)
    }
}

} // verus!

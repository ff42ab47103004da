//! Pipelines of a service and a function.
use core::marker::PhantomData;

use vstd::prelude::*;

use super::marker::{EnclosedFn, EnclosedFn2, Mapped, TransformFn};

verus! {

/// A service whose calls go through a function.
pub struct PipelineService<S, S1, M> {
    /// The service.
    pub service: S,
    /// The function.
    pub service2: S1,
    /// How the two are put together.
    pub marker: PhantomData<M>,
}

impl<S, S1, M> PipelineService<S, S1, M> {
    /// A pipeline of `service` and `service2`.
    pub fn new(service: S, service2: S1) -> (pipeline: Self)
        ensures
            pipeline.service == service,
            pipeline.service2 == service2,
    {
        PipelineService { service, service2, marker: PhantomData }
    }
}

impl<S: Clone, T> PipelineService<S, T, EnclosedFn> {
    /// Hands a clone of the service and the request to the function, once, and returns what the
    /// function returns.
    pub fn call<Req, Fut>(&self, req: Req) -> (fut: Fut) where T: Fn(S, Req) -> Fut
        requires
            forall|service: S|
                cloned(self.service, service) ==> #[trigger] call_requires(
                    self.service2,
                    (service, req),
                ),
        ensures
            exists|service: S|
                cloned(self.service, service) && #[trigger] call_ensures(
                    self.service2,
                    (service, req),
                    fut,
                ),
    {
        let service = self.service.clone();
        (self.service2)(service, req)
    }
}

impl<S, T> PipelineService<S, T, EnclosedFn2> {
    /// Hands the service itself and the request to the function, once, and returns what the
    /// function returns.
    pub fn call<'s, Req, Fut>(&'s self, req: Req) -> (fut: Fut) where T: Fn(&'s S, Req) -> Fut
        requires
            call_requires(self.service2, (&self.service, req)),
        ensures
            call_ensures(self.service2, (&self.service, req), fut),
    {
        (self.service2)(&self.service, req)
    }
}

impl<S: Clone, T> PipelineService<S, T, TransformFn> {
    /// Hands a clone of the service and the request to the function, once, and returns what the
    /// function returns.
    pub fn call<Req, Fut>(&self, req: Req) -> (fut: Fut) where T: Fn(S, Req) -> Fut
        requires
            forall|service: S|
                cloned(self.service, service) ==> #[trigger] call_requires(
                    self.service2,
                    (service, req),
                ),
        ensures
            exists|service: S|
                cloned(self.service, service) && #[trigger] call_ensures(
                    self.service2,
                    (service, req),
                    fut,
                ),
    {
        let service = self.service.clone();
        (self.service2)(service, req)
    }

    /// Whether the pipeline is ready, from what its service said when asked: ready when the
    /// service is, and otherwise its error made into one of the pipeline.
    pub fn ready<E1, E: From<E1>>(&self, service: Result<(), E1>) -> (ready: Result<(), E>)
        ensures
            match service {
                Ok(_) => ready is Ok,
                Err(e) => ready matches Err(made) && call_ensures(E::from, (e,), made),
            },
    {
        match service {
            Ok(_) => Ok(()),
            Err(e) => Err(E::from(e)),
        }
    }
}

/// A factory of services whose products go into pipelines.
pub struct PipelineServiceFactory<SF, SF1, M> {
    /// The factory.
    pub factory: SF,
    /// The function.
    pub factory2: SF1,
    /// How the two are put together.
    pub marker: PhantomData<M>,
}

impl<SF, SF1, M> PipelineServiceFactory<SF, SF1, M> {
    /// A pipeline of `factory` and `factory2`.
    pub fn new(factory: SF, factory2: SF1) -> (pipeline: Self)
        ensures
            pipeline.factory == factory,
            pipeline.factory2 == factory2,
    {
        PipelineServiceFactory { factory, factory2, marker: PhantomData }
    }
}

impl<SF, SF1: Clone> PipelineServiceFactory<SF, SF1, Mapped> {
    /// The service of the pipeline, from what its factory made: the service made by the factory
    /// with a clone of the function, or the error of the factory.
    pub fn new_service<S, E>(&self, service: Result<S, E>) -> (made: Result<
        PipelineService<S, SF1, Mapped>,
        E,
    >)
        ensures
            match service {
                Ok(service) => {
                    &&& made matches Ok(pipeline)
                    &&& pipeline.service == service
                    &&& cloned(self.factory2, pipeline.service2)
                },
                Err(e) => made matches Err(same) && same == e,
            },
    {
        let mapper = self.factory2.clone();
        match service {
            Ok(service) => Ok(PipelineService::new(service, mapper)),
            Err(e) => Err(e),
        }
    }
}

} // verus!

use xitca_core::service::marker::{EnclosedFn, EnclosedFn2, Mapped, TransformFn};
use xitca_core::service::pipeline::{PipelineService, PipelineServiceFactory};

#[derive(Debug, PartialEq)]
struct Inner(u8);

#[derive(Debug, PartialEq)]
struct Outer(u8);

impl From<Inner> for Outer {
    fn from(e: Inner) -> Self {
        Outer(e.0 + 1)
    }
}

#[test]
fn an_enclosed_fn_gets_a_clone_of_the_service() {
    let pipeline: PipelineService<_, _, EnclosedFn> =
        PipelineService::new(String::from("svc"), |svc: String, req: u8| format!("{}{}", svc, req));
    assert_eq!(pipeline.call(1), "svc1");
    assert_eq!(pipeline.call(2), "svc2");
    assert_eq!(pipeline.service, "svc");
}

#[test]
fn an_enclosed_fn_can_borrow_the_service() {
    let service = String::from("svc");
    let at = service.as_ptr();
    let pipeline: PipelineService<_, _, EnclosedFn2> =
        PipelineService::new(service, |svc: &String, req: u8| (svc.as_ptr(), req));
    assert_eq!(pipeline.call(7), (at, 7));
}

#[test]
fn a_transform_fn_gets_a_clone_of_the_service() {
    let pipeline: PipelineService<_, _, TransformFn> =
        PipelineService::new(40u8, |svc: u8, req: u8| svc + req);
    assert_eq!(pipeline.call(2), 42);
    assert_eq!(pipeline.ready::<Inner, Outer>(Ok(())), Ok(()));
    assert_eq!(pipeline.ready::<Inner, Outer>(Err(Inner(4))), Err(Outer(5)));
}

#[test]
fn a_mapped_factory_puts_its_service_and_its_function_together() {
    let factory: PipelineServiceFactory<(), _, Mapped> =
        PipelineServiceFactory::new((), String::from("mapper"));
    let made = factory.new_service::<u8, Inner>(Ok(5)).unwrap();
    assert_eq!(made.service, 5);
    assert_eq!(made.service2, "mapper");
    assert!(matches!(factory.new_service::<u8, Inner>(Err(Inner(3))), Err(Inner(3))));
    assert_eq!(factory.factory2, "mapper");
}

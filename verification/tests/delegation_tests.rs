use capability_core::delegation::{
    Authenticate, Authorize, AuthResult, MyCapability, MyCapabilityRequest, MyCapabilityResponse,
    MyUniqueUnforgeableReference,
};
use capability_core::gate::PolicyError;

struct NoAuth;

impl Authenticate for NoAuth {}

impl Authorize for NoAuth {}

#[test]
fn default_interfaces_deny() {
    let r: Result<bool, PolicyError> = <NoAuth as Authenticate>::request();
    assert_eq!(r, Ok(false));
    let d = <NoAuth as Authorize>::is_authorized(
        MyUniqueUnforgeableReference(1),
        MyUniqueUnforgeableReference(2),
        MyUniqueUnforgeableReference(3),
    );
    assert_eq!(d, Ok(false));
}

#[test]
fn named_capability_clone_is_a_value_copy() {
    let cap = MyCapability {
        uur: MyUniqueUnforgeableReference(42),
        name: String::from("inlet"),
    };
    let copy = cap.clone();
    assert_eq!(copy.uur, cap.uur);
    assert_eq!(copy.name, cap.name);
}

#[test]
fn request_response_vocabulary_round_trips_fields() {
    let cap = MyCapability {
        uur: MyUniqueUnforgeableReference(7),
        name: String::from("outlet"),
    };
    let req = MyCapabilityRequest::IntroduceMe(cap.clone(), String::from("outlet"));
    match req {
        MyCapabilityRequest::IntroduceMe(c, n) => {
            assert_eq!(c.uur, cap.uur);
            assert_eq!(n, "outlet");
        }
        MyCapabilityRequest::OhHaiBob(_) => panic!("wrong variant"),
    }
    let resp = MyCapabilityResponse::Introduction(cap.clone());
    assert!(matches!(resp, MyCapabilityResponse::Introduction(_)));
    assert!(matches!(AuthResult::Deny, AuthResult::Deny));
    assert!(matches!(AuthResult::Allow, AuthResult::Allow));
}

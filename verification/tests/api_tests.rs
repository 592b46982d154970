use useful_api::report::{AldiTowelCache, AldiTowelData};
use useful_api::stock::{SharkCache, SharkData};
use useful_api::{
    all_routes, hello, random, ApiError, ApiResponse, CongressBeerData, HelloData, RandomRoute,
};

#[test]
fn hello_answers_plain_by_default() {
    match hello(None) {
        ApiResponse::Plain(m) => assert_eq!(m, "Hello, World!"),
        _ => panic!("expected a plain answer"),
    }
}

#[test]
fn hello_answers_json_when_asked() {
    match hello(Some("json".to_string())) {
        ApiResponse::Json(d) => assert_eq!(d.message, "Hello, World!"),
        _ => panic!("expected a json answer"),
    }
}

#[test]
fn hello_treats_other_formats_as_plain() {
    match hello(Some("xml".to_string())) {
        ApiResponse::Plain(m) => assert_eq!(m, "Hello, World!"),
        _ => panic!("expected a plain answer"),
    }
}

#[test]
fn random_returns_a_mounted_route_but_never_itself() {
    let routes = all_routes();
    let mut tries = 0;
    while tries < 50 {
        match random(None) {
            ApiResponse::Plain(route) => {
                assert!(routes.iter().any(|r| r == &route));
                assert_ne!(route, "/random");
            }
            _ => panic!("expected a plain answer"),
        }
        tries += 1;
    }
}

#[test]
fn random_answers_json_when_asked() {
    match random(Some("json".to_string())) {
        ApiResponse::Json(d) => assert_ne!(d.route, "/random"),
        _ => panic!("expected a json answer"),
    }
}

#[test]
fn routes_are_mounted_in_order() {
    let r = all_routes();
    assert_eq!(r.len(), 8);
    assert_eq!(r[0], "/");
    assert_eq!(r[5], "/alditowels");
    assert_eq!(r[7], "/random");
}

#[test]
fn payload_types_carry_their_fields() {
    let err = ApiError { message: "Error fetching data".to_string() };
    assert_eq!(err.message, "Error fetching data");
    let beer = CongressBeerData { congressbeers: 3, message: "3 Bier".to_string() };
    assert_eq!(beer.congressbeers, 3);
    let greet = HelloData { message: "Hallo".to_string() };
    assert_eq!(greet.message, "Hallo");
    let route = RandomRoute { route: "/teapot".to_string() };
    assert_eq!(route.route, "/teapot");
    let towel = AldiTowelData {
        sells_towels: false,
        will_sell_towels: false,
        message: "Nein".to_string(),
        availability: Vec::new(),
        products: Vec::new(),
    };
    let cached = AldiTowelCache { data: towel.clone(), time: 12 };
    assert_eq!(cached.time, 12);
    assert_eq!(cached.data.message, towel.message);
    let shark = SharkData { beeghaj: 1, smolhaj: 2, message: "msg".to_string() };
    let shark_cached = SharkCache { data: shark.clone(), time: 7 };
    assert_eq!(shark_cached.time, 7);
    assert_eq!(shark_cached.data.beeghaj, 1);
    assert_eq!(shark.smolhaj, 2);
}

use rustnext::chain::{trace, wrap_order, Stage};
use rustnext::router::Router;

#[test]
fn middleware_run_in_onion_order() {
    let r: Router<u32, &str> = Router::new().use_middleware("m1").use_middleware("m2").get("/", 1);
    let order = r.wrap_order();
    assert_eq!(order, vec![1, 0]);
    let t = trace(&order, &vec![false, false]);
    assert_eq!(
        t,
        vec![Stage::Enter(0), Stage::Enter(1), Stage::Handler, Stage::Leave(1), Stage::Leave(0)]
    );
}

#[test]
fn short_circuit_skips_inner_layers_and_handler() {
    let order = wrap_order(3);
    assert_eq!(order, vec![2, 1, 0]);
    let t = trace(&order, &vec![false, true, false]);
    assert_eq!(t, vec![Stage::Enter(0), Stage::Enter(1), Stage::Leave(1), Stage::Leave(0)]);
}

#[test]
fn no_middleware_runs_handler_alone() {
    let t = trace(&wrap_order(0), &vec![]);
    assert_eq!(t, vec![Stage::Handler]);
}

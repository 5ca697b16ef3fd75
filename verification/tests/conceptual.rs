use bullet_hell::conceptual::{PlayerReq, UpdateReq};

#[test]
fn update_request_clones() {
    let r = UpdateReq { id: 4, msg: "up".to_string() };
    let c = r.clone();
    assert_eq!(c.id, 4);
    assert_eq!(c.msg, "up");
    let req = PlayerReq::Update(c);
    assert!(matches!(req, PlayerReq::Update(_)));
    assert!(matches!(PlayerReq::Nothing, PlayerReq::Nothing));
}

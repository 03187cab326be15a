use farcaster_core::roles::{Alice, Bob, Role, SwapRole};
use farcaster_core::session::{
    AlicePreSessionParameters, AliceSessionParameters, BobPreSessionParameters, BobSessionParameters,
    PreSession,
};

#[test]
fn create_presession() {
    let params = AlicePreSessionParameters {
        destination_address: String::from("bc1qndk902ka3266wzta9cnl4fgfcmhy7xqrdh26ka"),
    };
    let pre_session = PreSession::<Alice>::new(params);
    let session_params = AliceSessionParameters::new().unwrap();
    let _session = pre_session.into_session(session_params);
}

#[test]
fn session_keeps_parameters() {
    let params = BobPreSessionParameters { refund_address: String::from("bc1qrefund") };
    let pre_session = PreSession::<Bob>::new(params);
    let keys = BobSessionParameters::new().unwrap();
    let fund = keys.fund;
    let session = pre_session.into_session(keys);
    assert_eq!(session.uuid, "session id");
    assert_eq!(session.pre_session_params().refund_address, "bc1qrefund");
    assert_eq!(session.get_params().fund, fund);
    assert_eq!(pre_session.get_params().refund_address, "bc1qrefund");
    assert_eq!(Alice::swap_role(), SwapRole::Alice);
    assert_eq!(Bob::swap_role(), SwapRole::Bob);
}

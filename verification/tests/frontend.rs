use hackagotchi::frontend::{emojify, filify};
use hackagotchi::interact::{
    ChallengeEvent, Credentials, Interactivity, PossessionPage,
};

#[test]
fn emojify_wraps_and_underscores() {
    assert_eq!(emojify("corn"), ":corn:");
    assert_eq!(emojify("Hack Stead Deluxe"), ":Hack_Stead_Deluxe:");
    assert_eq!(emojify(""), "::");
}

#[test]
fn filify_lowers_and_underscores() {
    assert_eq!(filify("Bractus"), "bractus");
    assert_eq!(filify("Hack Stead Deluxe"), "hack_stead_deluxe");
    assert_eq!(filify("already_flat"), "already_flat");
}

#[test]
fn interactivity_ids() {
    assert_eq!(Interactivity::Read.id(), "static");
    assert_eq!(Interactivity::Write.id(), "dynamic");
    assert_eq!(Interactivity::Buy.id(), "market");
}

#[test]
fn market_mode_depends_on_credentials() {
    assert!(Interactivity::Buy.market(Credentials::Anonymous));
    assert!(Interactivity::Buy.market(Credentials::Owner));
    assert!(Interactivity::Write.market(Credentials::Owner));
    assert!(!Interactivity::Write.market(Credentials::Hacksteader));
    assert!(!Interactivity::Read.market(Credentials::Owner));
}

#[test]
fn callback_id_routes_sales() {
    let page = |sale_price, interactivity, credentials| PossessionPage {
        sale_price,
        interactivity,
        credentials,
    };
    assert_eq!(
        page(Some(30), Interactivity::Write, Credentials::Owner).callback_id(),
        "sale_removal"
    );
    assert_eq!(
        page(Some(30), Interactivity::Buy, Credentials::Hacksteader).callback_id(),
        "sale_complete"
    );
    // No sale: the ordinary possession page for the mode.
    assert_eq!(
        page(None, Interactivity::Write, Credentials::Owner).callback_id(),
        "possession_page_dynamic"
    );
    // On sale but read-only: not a market page.
    assert_eq!(
        page(Some(30), Interactivity::Read, Credentials::Owner).callback_id(),
        "possession_page_static"
    );
    // A buyer without credentials falls through to the market page.
    assert_eq!(
        page(Some(30), Interactivity::Buy, Credentials::Anonymous).callback_id(),
        "possession_page_market"
    );
}

#[test]
fn challenge_echoes() {
    let c = ChallengeEvent { challenge: "abc123".to_string() };
    assert_eq!(c.response(), "abc123");
}

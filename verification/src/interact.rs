//! Data carried between the chat platform and the core: inbound event
//! payloads, interaction modes, viewer credentials, and the callback
//! routing for possession pages. Delivery, formatting and the HTTP
//! surface live with the messaging collaborator; these are the plain
//! values it hands the core.
use vstd::prelude::*;
use vstd::string::StringExecFns;
use vstd::view::View as _;

verus! {

/// A chat-platform URL-verification challenge.
pub struct ChallengeEvent {
    pub challenge: String,
}

impl ChallengeEvent {
    /// The verification answer: the challenge echoed back.
    pub fn response(&self) -> (r: String)
        ensures
            r@ == self.challenge@,
    {
        self.challenge.clone()
    }
}

/// One inbound chat message event.
pub struct Message {
    pub user_id: String,
    pub channel: String,
    pub text: String,
    pub kind: String,
    pub tab: Option<String>,
}

/// The envelope the chat platform posts a message event in.
pub struct Event {
    pub reply: Message,
}

/// One inbound interactive action payload.
pub struct Interaction {
    pub trigger_id: String,
    pub actions: Vec<Action>,
    pub user: User,
    pub view: Option<View>,
}

/// The view an interaction happened in.
pub struct View {
    pub private_metadata: String,
    pub callback_id: String,
    pub root_view_id: String,
}

/// The user behind an interaction.
pub struct User {
    pub id: String,
}

/// One interactive action: a pressed button or submitted field.
pub struct Action {
    pub action_id: Option<String>,
    pub name: Option<String>,
    pub value: String,
}

/// Who the viewer of a page is relative to its subject.
#[derive(Debug, Clone, Copy, PartialEq, Eq, Structural)]
pub enum Credentials {
    Owner,
    Hacksteader,
    Anonymous,
}

/// How interactive a rendered page is.
#[derive(Debug, Clone, Copy, PartialEq, Eq, Structural)]
pub enum Interactivity {
    Read,
    Write,
    Buy,
}

impl Interactivity {
    /// The routing id suffix of this mode.
    pub open spec fn id_spec(self) -> Seq<char> {
        match self {
            Interactivity::Read => "static"@,
            Interactivity::Write => "dynamic"@,
            Interactivity::Buy => "market"@,
        }
    }

    /// The routing id suffix of this mode.
    pub fn id(self) -> (r: &'static str)
        ensures
            r@ == self.id_spec(),
    {
        match self {
            Interactivity::Read => "static",
            Interactivity::Write => "dynamic",
            Interactivity::Buy => "market",
        }
    }

    /// Whether this mode offers market actions to a viewer with the
    /// given credentials.
    pub open spec fn market_spec(self, creds: Credentials) -> bool {
        match self {
            Interactivity::Buy => true,
            Interactivity::Write => creds == Credentials::Owner,
            _ => false,
        }
    }

    /// Whether this mode offers market actions to a viewer with the
    /// given credentials.
    pub fn market(&self, creds: Credentials) -> (r: bool)
        ensures
            r == self.market_spec(creds),
    {
        match self {
            Interactivity::Buy => true,
            Interactivity::Write => creds == Credentials::Owner,
            _ => false,
        }
    }
}

/// What a possession page needs of its subject: the asking price when
/// the possession is on sale, the page's interactivity, and the
/// viewer's credentials.
pub struct PossessionPage {
    pub sale_price: Option<u64>,
    pub interactivity: Interactivity,
    pub credentials: Credentials,
}

impl PossessionPage {
    /// The callback id that routes this page's submissions: sale pages
    /// route to removal or completion, everything else to the ordinary
    /// possession page for the page's mode.
    pub open spec fn callback_id_spec(self) -> Seq<char> {
        if self.sale_price is Some && self.interactivity.market_spec(self.credentials)
            && self.credentials == Credentials::Owner {
            "sale_removal"@
        } else if self.sale_price is Some && self.interactivity.market_spec(self.credentials)
            && self.credentials == Credentials::Hacksteader {
            "sale_complete"@
        } else {
            "possession_page_"@ + self.interactivity.id_spec()
        }
    }

    /// The callback id that routes this page's submissions.
    pub fn callback_id(&self) -> (r: String)
        ensures
            r@ == self.callback_id_spec(),
    {
        if self.sale_price.is_some() && self.interactivity.market(self.credentials) {
            match self.credentials {
                Credentials::Owner => {
                    let mut out = String::new();
                    out.append("sale_removal");
                    return out;
                },
                Credentials::Hacksteader => {
                    let mut out = String::new();
                    out.append("sale_complete");
                    return out;
                },
                _ => {},
            }
        }
        let mut out = String::new();
        out.append("possession_page_");
        out.append(self.interactivity.id());
        out
    }
}

} // verus!

use crate::error::ErrVal;
use crate::error::ValidateError;
use crate::event::names_of;
use crate::schema::Op;
use crate::schema::Schema;
use crate::schema::Step;
use crate::schema::StepVal;
use vstd::prelude::*;

verus! {

/// The closed set of endpoints a batch can be validated for.
#[derive(Debug, Clone, Copy, PartialEq, Eq, Structural)]
pub enum Endpoint {
    ReferenceDataAccount,
    ReferenceDataCard,
    ReferenceDataCustomer,
    ReferenceDataDevice,
    CardAuthorization,
    CardClearing,
    TransferInitiation,
    TransferSettlement,
}

/// The textual token that selects each endpoint.
pub open spec fn endpoint_token(e: Endpoint) -> Seq<char> {
    match e {
        Endpoint::ReferenceDataAccount => "ref_account"@,
        Endpoint::ReferenceDataCard => "ref_card"@,
        Endpoint::ReferenceDataCustomer => "ref_customer"@,
        Endpoint::ReferenceDataDevice => "ref_device"@,
        Endpoint::CardAuthorization => "card_auth"@,
        Endpoint::CardClearing => "card_clear"@,
        Endpoint::TransferInitiation => "transfer_init"@,
        Endpoint::TransferSettlement => "transfer_settle"@,
    }
}

/// The endpoint a token selects, tried in declaration order.
pub open spec fn endpoint_of_token(s: Seq<char>) -> Option<Endpoint> {
    if s == "ref_account"@ {
        Some(Endpoint::ReferenceDataAccount)
    } else if s == "ref_card"@ {
        Some(Endpoint::ReferenceDataCard)
    } else if s == "ref_customer"@ {
        Some(Endpoint::ReferenceDataCustomer)
    } else if s == "ref_device"@ {
        Some(Endpoint::ReferenceDataDevice)
    } else if s == "card_auth"@ {
        Some(Endpoint::CardAuthorization)
    } else if s == "card_clear"@ {
        Some(Endpoint::CardClearing)
    } else if s == "transfer_init"@ {
        Some(Endpoint::TransferInitiation)
    } else if s == "transfer_settle"@ {
        Some(Endpoint::TransferSettlement)
    } else {
        None
    }
}

impl Endpoint {
    /// Resolves a selector token; unknown tokens select nothing.
    pub fn from_token(token: &str) -> (r: Option<Endpoint>)
        ensures
            r == endpoint_of_token(token@),
    {
        let t = token.to_owned();
        if t == "ref_account".to_owned() {
            Some(Endpoint::ReferenceDataAccount)
        } else if t == "ref_card".to_owned() {
            Some(Endpoint::ReferenceDataCard)
        } else if t == "ref_customer".to_owned() {
            Some(Endpoint::ReferenceDataCustomer)
        } else if t == "ref_device".to_owned() {
            Some(Endpoint::ReferenceDataDevice)
        } else if t == "card_auth".to_owned() {
            Some(Endpoint::CardAuthorization)
        } else if t == "card_clear".to_owned() {
            Some(Endpoint::CardClearing)
        } else if t == "transfer_init".to_owned() {
            Some(Endpoint::TransferInitiation)
        } else if t == "transfer_settle".to_owned() {
            Some(Endpoint::TransferSettlement)
        } else {
            None
        }
    }

    /// The token that selects this endpoint.
    pub fn token(&self) -> (r: String)
        ensures
            r@ == endpoint_token(*self),
    {
        match self {
            Endpoint::ReferenceDataAccount => "ref_account".to_owned(),
            Endpoint::ReferenceDataCard => "ref_card".to_owned(),
            Endpoint::ReferenceDataCustomer => "ref_customer".to_owned(),
            Endpoint::ReferenceDataDevice => "ref_device".to_owned(),
            Endpoint::CardAuthorization => "card_auth".to_owned(),
            Endpoint::CardClearing => "card_clear".to_owned(),
            Endpoint::TransferInitiation => "transfer_init".to_owned(),
            Endpoint::TransferSettlement => "transfer_settle".to_owned(),
        }
    }
}

/// The declared schema of the reference-data account endpoint: drop the two
/// bookkeeping fields, parse the three list fields as arrays, the two count
/// and date fields as integers, and keep the active flag as text.
pub open spec fn reference_data_account_steps() -> Seq<StepVal> {
    seq![
        StepVal { op: Op::Drop, keys: seq!["key"@, "event_external_id"@] },
        StepVal {
            op: Op::ToArray,
            keys: seq!["account_cards"@, "account_customers"@, "account_limits"@],
        },
        StepVal { op: Op::ToInt, keys: seq!["account_number_of_cards"@, "account_open_date"@] },
        StepVal { op: Op::ToStr, keys: seq!["account_active"@] },
    ]
}

/// Builds the validator of the reference-data account endpoint.
pub fn reference_data_account_schema() -> (r: Schema)
    ensures
        r@ == reference_data_account_steps(),
{
    let mut drop_keys: Vec<String> = Vec::new();
    drop_keys.push("key".to_owned());
    drop_keys.push("event_external_id".to_owned());
    let mut array_keys: Vec<String> = Vec::new();
    array_keys.push("account_cards".to_owned());
    array_keys.push("account_customers".to_owned());
    array_keys.push("account_limits".to_owned());
    let mut int_keys: Vec<String> = Vec::new();
    int_keys.push("account_number_of_cards".to_owned());
    int_keys.push("account_open_date".to_owned());
    let mut str_keys: Vec<String> = Vec::new();
    str_keys.push("account_active".to_owned());
    proof {
        assert(names_of(drop_keys@) =~= seq!["key"@, "event_external_id"@]);
        assert(names_of(array_keys@) =~= seq![
            "account_cards"@,
            "account_customers"@,
            "account_limits"@,
        ]);
        assert(names_of(int_keys@) =~= seq![
            "account_number_of_cards"@,
            "account_open_date"@,
        ]);
        assert(names_of(str_keys@) =~= seq!["account_active"@]);
    }
    let mut steps: Vec<Step> = Vec::new();
    steps.push(Step { op: Op::Drop, keys: drop_keys });
    steps.push(Step { op: Op::ToArray, keys: array_keys });
    steps.push(Step { op: Op::ToInt, keys: int_keys });
    steps.push(Step { op: Op::ToStr, keys: str_keys });
    let r = Schema { steps };
    proof {
        assert(r@ =~= reference_data_account_steps());
    }
    r
}

impl Endpoint {
    /// The validator an endpoint's schema declares; every endpoint without a
    /// declared schema fails fast, before any row is touched.
    pub fn validator(self) -> (r: Result<Schema, ValidateError>)
        ensures
            match r {
                Ok(s) => self == Endpoint::ReferenceDataAccount && s@
                    == reference_data_account_steps(),
                Err(e) => self != Endpoint::ReferenceDataAccount && e@
                    == (ErrVal::UnimplementedSchema { endpoint: self }),
            },
    {
        match self {
            Endpoint::ReferenceDataAccount => Ok(reference_data_account_schema()),
            _ => Err(ValidateError::UnimplementedSchema { endpoint: self }),
        }
    }
}

} // verus!

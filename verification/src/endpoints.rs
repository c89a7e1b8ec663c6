//! The account settings, and the addresses and headers that the broker's
//! service is asked with.

use crate::instruments::name_views;
use vstd::prelude::*;
use vstd::string::StringExecFns;

verus! {

/// The account that requests are made for.
#[derive(Debug, Clone, PartialEq, Eq)]
pub struct OandaSettings {
    pub account_id: String,
    pub authorization: String,
}

/// The transport closed the stream: a read brought no bytes.
#[derive(Debug, Clone, PartialEq, Eq)]
pub struct EmptyChunkError {
    pub message: String,
}

/// The host of the streaming service.
pub open spec fn streaming_host() -> Seq<char> {
    "https://stream-fxpractice.oanda.com"@
}

/// The host of the request service.
pub open spec fn api_host() -> Seq<char> {
    "https://api-fxpractice.oanda.com"@
}

/// The names with a comma between each two.
pub open spec fn comma_joined(names: Seq<Seq<char>>) -> Seq<char>
    decreases names.len(),
{
    if names.len() == 0 {
        Seq::empty()
    } else if names.len() == 1 {
        names[0]
    } else {
        comma_joined(names.drop_last()) + ","@ + names.last()
    }
}

/// The address of the price stream of an account for `names`.
pub open spec fn price_stream_address(account: Seq<char>, names: Seq<Seq<char>>) -> Seq<char> {
    streaming_host() + "/v3/accounts/"@ + account + "/pricing/stream?instruments="@ + comma_joined(
        names,
    )
}

/// The address of the latest prices of an account for `names`.
pub open spec fn latest_prices_address(account: Seq<char>, names: Seq<Seq<char>>) -> Seq<char> {
    api_host() + "/v3/accounts/"@ + account + "/pricing?instruments="@ + comma_joined(names)
}

/// The address of the orders of an account.
pub open spec fn orders_address(account: Seq<char>) -> Seq<char> {
    api_host() + "/v3/accounts/"@ + account + "/orders"@
}

/// The address of the positions of an account.
pub open spec fn positions_address(account: Seq<char>) -> Seq<char> {
    api_host() + "/v3/accounts/"@ + account + "/positions"@
}

/// Joins the names with commas.
pub fn join_instruments(instruments: &[String]) -> (r: String)
    ensures
        r@ == comma_joined(name_views(instruments@)),
{
    let mut out = String::new();
    let mut i: usize = 0;
    while i < instruments.len()
        invariant
            i <= instruments@.len(),
            out@ == comma_joined(name_views(instruments@).take(i as int)),
        decreases instruments@.len() - i,
    {
        if i > 0 {
            out.append(",");
        }
        out.append(instruments[i].as_str());
        proof {
            let views = name_views(instruments@);
            assert(views.take(i + 1).drop_last() =~= views.take(i as int));
            assert(views.take(i + 1).last() == instruments@[i as int]@);
            if i == 0 {
                assert(out@ =~= instruments@[0]@);
            }
        }
        i += 1;
    }
    proof {
        assert(name_views(instruments@).take(i as int) =~= name_views(instruments@));
    }
    out
}

impl OandaSettings {
    /// The value of the authorization header.
    pub fn authorization_header(&self) -> (r: String)
        ensures
            r@ == "Bearer "@ + self.authorization@,
    {
        let mut out = "Bearer ".to_owned();
        out.append(self.authorization.as_str());
        out
    }

    /// The address at which the prices of `instruments` are streamed.
    pub fn price_stream_url(&self, instruments: &[String]) -> (r: String)
        ensures
            r@ == price_stream_address(self.account_id@, name_views(instruments@)),
    {
        let list = join_instruments(instruments);
        let mut out = "https://stream-fxpractice.oanda.com".to_owned();
        out.append("/v3/accounts/");
        out.append(self.account_id.as_str());
        out.append("/pricing/stream?instruments=");
        out.append(list.as_str());
        out
    }

    /// The address at which the latest prices of `instruments` are asked for.
    pub fn latest_prices_url(&self, instruments: &[String]) -> (r: String)
        ensures
            r@ == latest_prices_address(self.account_id@, name_views(instruments@)),
    {
        let list = join_instruments(instruments);
        let mut out = "https://api-fxpractice.oanda.com".to_owned();
        out.append("/v3/accounts/");
        out.append(self.account_id.as_str());
        out.append("/pricing?instruments=");
        out.append(list.as_str());
        out
    }

    /// The address to which orders are sent.
    pub fn orders_url(&self) -> (r: String)
        ensures
            r@ == orders_address(self.account_id@),
    {
        let mut out = "https://api-fxpractice.oanda.com".to_owned();
        out.append("/v3/accounts/");
        out.append(self.account_id.as_str());
        out.append("/orders");
        out
    }

    /// The address at which the positions are asked for.
    pub fn positions_url(&self) -> (r: String)
        ensures
            r@ == positions_address(self.account_id@),
    {
        let mut out = "https://api-fxpractice.oanda.com".to_owned();
        out.append("/v3/accounts/");
        out.append(self.account_id.as_str());
        out.append("/positions");
        out
    }
}

impl EmptyChunkError {
    /// The error with the message that it is shown with.
    pub fn new(message: String) -> (r: EmptyChunkError)
        ensures
            r.message@ == message@,
    {
        EmptyChunkError { message }
    }

    /// The text that the error is shown as.
    pub fn to_text(&self) -> (r: String)
        ensures
            r@ == "EmptyChunkError: "@ + self.message@,
    {
        let mut out = "EmptyChunkError: ".to_owned();
        out.append(self.message.as_str());
        out
    }
}

} // verus!

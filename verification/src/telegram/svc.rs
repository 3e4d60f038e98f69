use vstd::prelude::*;

use crate::http_client::opt_chars;
use crate::number::{decimal, push_decimal, push_signed_decimal, signed_decimal};
use crate::telegram::model::{GetUpdatesResp, LlamaRequest, OrderForm, OrderRequest, TeleMessage};
use crate::text::{char_debug, debug_char, debug_str, str_debug};

verus! {

/// The instructions to the model that come before the user's message.
pub const PROMPT_HEAD: &'static str = "You are a strict trading order formatter.\nGiven a user's message about a trade order, extract and return ONLY a valid JSON object like this:\n{\"symbol\": \"SYMBOL\", \"price\": NUMBER, \"lot\": NUMBER, \"side\": \"B\" or \"S\"}\n\nRules:\n- Output ONLY the JSON object. No explanations or formatting like backticks.\n- Keys must be: symbol, price, lot, side.\n- Convert symbol to uppercase.\n- Only allow known trading symbols like: XBTUSD, ETHUSD, SOLUSD, DOGEUSD, SUIUSD and etc .\n- Convert human-like numbers (e.g. \"ten\", \"1 million\", \"10K\") into pure integers.\n- Use \"B\" for buy and \"S\" for sell.\n- Only return one order, even if the message mentions several.\n- If key information is missing, return {}.\n\nUser: ";

/// What comes after the user's message in the prompt.
pub const PROMPT_TAIL: &'static str = "\nOutput:";

/// The model that turns messages into orders.
pub const ORDER_MODEL: &'static str = "gemma3:1b";

/// Where the order bot asks the model.
pub const MODEL_URL: &'static str = "http://127.0.0.1:11434/api/generate";

/// Where the order bot places orders.
pub const ORDER_URL: &'static str = "http://127.0.0.1:7878/order";

/// The text that `derive(Debug)` writes for an order.
pub open spec fn order_debug(order: OrderForm) -> Seq<char> {
    "OrderForm { symbol: "@ + str_debug(order.symbol@) + ", side: "@ + char_debug(order.side)
        + ", price: "@ + decimal(order.price as nat) + ", lot: "@ + decimal(order.lot as nat)
        + " }"@
}

/// The verdict that opens the message about an order.
pub open spec fn order_verdict(ok: bool) -> Seq<char> {
    if ok {
        "Succeed Buy \n "@
    } else {
        "Failed Buy \n "@
    }
}

impl OrderForm {
    /// The `Debug` text of the order, as `derive(Debug)` writes it.
    pub fn debug_text(&self) -> (r: String)
        ensures
            r@ == order_debug(*self),
    {
        let mut r = String::new();
        r.append("OrderForm { symbol: ");
        let symbol = debug_str(self.symbol.as_str());
        r.append(symbol.as_str());
        r.append(", side: ");
        let side = debug_char(self.side);
        r.append(side.as_str());
        r.append(", price: ");
        push_decimal(&mut r, self.price as u64);
        r.append(", lot: ");
        push_decimal(&mut r, self.lot as u64);
        r.append(" }");
        r
    }
}

/// The Telegram bot that turns messages into orders.
pub struct Telegram {}

impl Telegram {
    /// The prompt that asks the model to turn `user_input` into an order.
    pub fn build_prompt(user_input: &str) -> (r: String)
        ensures
            r@ == PROMPT_HEAD@ + user_input@ + PROMPT_TAIL@,
    {
        let mut r = String::new();
        r.append(PROMPT_HEAD);
        r.append(user_input);
        r.append(PROMPT_TAIL);
        r
    }

    /// The URL that asks Telegram for the updates from `update_id` on.
    pub fn updates_url(tele_url: &str, token: &str, update_id: i64) -> (r: String)
        ensures
            r@ == tele_url@ + "/bot"@ + token@ + "/getUpdates?offset="@ + signed_decimal(
                update_id as int,
            ),
    {
        let mut r = String::new();
        r.append(tele_url);
        r.append("/bot");
        r.append(token);
        r.append("/getUpdates?offset=");
        push_signed_decimal(&mut r, update_id);
        r
    }

    /// The URL that sends a message to a Telegram chat.
    pub fn send_message_url(tele_url: &str, token: &str) -> (r: String)
        ensures
            r@ == tele_url@ + "/bot"@ + token@ + "/sendMessage"@,
    {
        let mut r = String::new();
        r.append(tele_url);
        r.append("/bot");
        r.append(token);
        r.append("/sendMessage");
        r
    }

    /// The body of an answer to `getUpdates` that is worth reading: only an
    /// answer with status `200` and a body.
    pub fn updates_body(status: i32, body: Option<String>) -> (r: Option<String>)
        ensures
            opt_chars(r) == (if status == 200 {
                opt_chars(body)
            } else {
                None
            }),
    {
        if status != 200 {
            None
        } else {
            body
        }
    }

    /// The next offset and the request to the model for a batch of updates:
    /// with no update, the offset stays and nothing is asked; otherwise the
    /// offset moves past the first update and the model is asked to read the
    /// last update's message, echoed.
    pub fn prompt_request(update_id: i64, updates: &GetUpdatesResp) -> (r: (i64, Option<LlamaRequest>))
        requires
            updates.result.len() > 0 ==> updates.result[0].update_id < i64::MAX,
        ensures
            updates.result.len() == 0 ==> r.0 == update_id && r.1 is None,
            updates.result.len() > 0 ==> {
                &&& r.0 == updates.result[0].update_id + 1
                &&& r.1 matches Some(req)
                &&& req.model@ == ORDER_MODEL@
                &&& req.prompt@ == PROMPT_HEAD@ + ("Echo "@ + updates.result@.last().message.text@)
                    + PROMPT_TAIL@
                &&& !req.stream
            },
    {
        let n = updates.result.len();
        if n == 0 {
            return (update_id, None);
        }
        let next = updates.result[0].update_id + 1;
        let mut text = String::new();
        text.append("Echo ");
        text.append(updates.result[n - 1].message.text.as_str());
        let request = LlamaRequest {
            model: String::from_str(ORDER_MODEL),
            prompt: Self::build_prompt(text.as_str()),
            stream: false,
        };
        (next, Some(request))
    }

    /// The order sent for what the model extracted: a buy of its symbol,
    /// price and lot, good till cancelled, for user 10.
    pub fn order_request(order: &OrderForm) -> (r: OrderRequest)
        ensures
            r.symbol@ == order.symbol@,
            r.side == 'B',
            r.price == order.price,
            r.lot == order.lot,
            r.expiry@ == "GTC"@,
            r.user_id == 10,
    {
        OrderRequest {
            expiry: String::from_str("GTC"),
            user_id: 10,
            price: order.price,
            lot: order.lot,
            symbol: order.symbol.clone(),
            side: 'B',
        }
    }

    /// The body of the notification that an order went through.
    pub fn order_notice(order: &OrderRequest) -> (r: String)
        ensures
            r@ == order.symbol@ + " order succeed"@,
    {
        let mut r = String::new();
        r.append(order.symbol.as_str());
        r.append(" order succeed");
        r
    }

    /// Whether to notify, and the message to the chat `chat_id`, once the
    /// order service answered with `status`: `200` is a success, which is
    /// also notified; anything else a failure.
    pub fn order_reply(chat_id: i64, order: &OrderForm, status: i32) -> (r: (bool, TeleMessage))
        ensures
            r.0 == (status == 200),
            r.1.chat_id == chat_id,
            r.1.text@ == order_reply_text(status == 200, *order),
    {
        let mut text = String::new();
        let ok = status == 200;
        if ok {
            text.append("Succeed Buy \n ");
        } else {
            text.append("Failed Buy \n ");
        }
        let debug = order.debug_text();
        text.append(debug.as_str());
        (ok, TeleMessage { chat_id, text })
    }
}

/// The text that tells a chat how its order went: success or failure, then
/// the order's `Debug` text.
pub open spec fn order_reply_text(ok: bool, order: OrderForm) -> Seq<char> {
    order_verdict(ok) + order_debug(order)
}

/// Where the order bot stands within one poll.
#[derive(Debug)]
pub enum OrderPoll {
    /// Waiting for the updates from `update_id` on.
    Updates { update_id: i64 },
    /// Waiting for the model's reply; `next` is the next offset and `chat_id`
    /// the chat to answer.
    Model { next: i64, chat_id: i64 },
    /// Waiting for the order that the model's reply holds.
    Reading { next: i64, chat_id: i64 },
    /// Waiting for the order service's status for `order`.
    Placing { next: i64, chat_id: i64, order: OrderForm, notice: String },
    /// Waiting for the notification to go out; `message` goes to the chat
    /// next.
    Notifying { next: i64, message: TeleMessage },
    /// Waiting for the message to the chat to go out.
    Sending { next: i64 },
    /// The poll is over; the next one starts from `next`.
    Finished { next: i64 },
}

/// What the order bot learns from the outside.
#[derive(Debug)]
pub enum OrderEvent {
    /// The updates, or `None` when the answer was not worth reading.
    Updates(Option<GetUpdatesResp>),
    /// The body of the model's answer, if it had one.
    ModelReply(Option<String>),
    /// The order that the model's answer holds.
    Order(OrderForm),
    /// The status with which the order service answered.
    Status(i32),
    /// The notification or the message went out (or failed to).
    Delivered,
}

/// What the order bot asks to be done next.
#[derive(Debug)]
pub enum OrderAction {
    /// End the poll; the next one starts from this offset.
    Finish(i64),
    /// Send this request to the model at `MODEL_URL`.
    AskModel(LlamaRequest),
    /// Read the order out of this answer of the model.
    ReadOrder(String),
    /// Send this order to the order service at `ORDER_URL`.
    PlaceOrder(OrderRequest),
    /// Push a notification with this body.
    Notify(String),
    /// Send this message to its chat.
    Send(TeleMessage),
}

/// The offset that a poll in state `p` would end with.
pub open spec fn poll_offset(p: OrderPoll) -> i64 {
    match p {
        OrderPoll::Updates { update_id } => update_id,
        OrderPoll::Model { next, .. } => next,
        OrderPoll::Reading { next, .. } => next,
        OrderPoll::Placing { next, .. } => next,
        OrderPoll::Notifying { next, .. } => next,
        OrderPoll::Sending { next } => next,
        OrderPoll::Finished { next } => next,
    }
}

/// The poll ends with offset `n`.
pub open spec fn finishes(r: (OrderPoll, OrderAction), n: i64) -> bool {
    &&& r.0 matches OrderPoll::Finished { next } && next == n
    &&& r.1 matches OrderAction::Finish(m) && m == n
}

impl Telegram {
    /// One step of the order bot. With no update worth reading the poll ends
    /// and the offset stays. Otherwise the offset moves past the first update,
    /// whose chat is answered, and the model is asked to read the last
    /// update's message, echoed; without a body in its answer the poll ends;
    /// otherwise the order in it is placed as a buy. A status of `200` is
    /// notified with the notice `<symbol> order succeed`, then the chat is
    /// told of the success; any other status is told as a failure; then the
    /// poll ends. An event that does not answer the last action ends the poll
    /// with the offset it stands at.
    pub fn order_step(state: OrderPoll, event: OrderEvent) -> (r: (OrderPoll, OrderAction))
        requires
            event matches OrderEvent::Updates(Some(u)) ==> (u.result.len() > 0
                ==> u.result[0].update_id < i64::MAX),
        ensures
            match (state, event) {
                (OrderPoll::Updates { update_id }, OrderEvent::Updates(None)) => finishes(
                    r,
                    update_id,
                ),
                (OrderPoll::Updates { update_id }, OrderEvent::Updates(Some(u))) => if u.result.len()
                    == 0 {
                    finishes(r, update_id)
                } else {
                    &&& r.0 matches OrderPoll::Model { next, chat_id } && next
                        == u.result[0].update_id + 1 && chat_id == u.result[0].message.chat.id
                    &&& r.1 matches OrderAction::AskModel(req) && req.model@ == ORDER_MODEL@
                        && req.prompt@ == PROMPT_HEAD@ + ("Echo "@ + u.result@.last().message.text@)
                        + PROMPT_TAIL@ && !req.stream
                },
                (OrderPoll::Model { next, chat_id }, OrderEvent::ModelReply(None)) => finishes(
                    r,
                    next,
                ),
                (OrderPoll::Model { next, chat_id }, OrderEvent::ModelReply(Some(body))) => {
                    &&& r.0 matches OrderPoll::Reading { next: n, chat_id: c } && n == next && c
                        == chat_id
                    &&& r.1 matches OrderAction::ReadOrder(b) && b@ == body@
                },
                (OrderPoll::Reading { next, chat_id }, OrderEvent::Order(o)) => {
                    &&& r.0 matches OrderPoll::Placing { next: n, chat_id: c, order, notice } && n
                        == next && c == chat_id && order.symbol@ == o.symbol@ && order.side
                        == o.side && order.price == o.price && order.lot == o.lot && notice@
                        == o.symbol@ + " order succeed"@
                    &&& r.1 matches OrderAction::PlaceOrder(req) && req.symbol@ == o.symbol@
                        && req.side == 'B' && req.price == o.price && req.lot == o.lot
                        && req.expiry@ == "GTC"@ && req.user_id == 10
                },
                (
                    OrderPoll::Placing { next, chat_id, order, notice },
                    OrderEvent::Status(status),
                ) => if status == 200 {
                    &&& r.0 matches OrderPoll::Notifying { next: n, message } && n == next
                        && message.chat_id == chat_id && message.text@ == order_reply_text(
                        true,
                        order,
                    )
                    &&& r.1 matches OrderAction::Notify(b) && b@ == notice@
                } else {
                    &&& r.0 matches OrderPoll::Sending { next: n } && n == next
                    &&& r.1 matches OrderAction::Send(m) && m.chat_id == chat_id && m.text@
                        == order_reply_text(false, order)
                },
                (OrderPoll::Notifying { next, message }, OrderEvent::Delivered) => {
                    &&& r.0 matches OrderPoll::Sending { next: n } && n == next
                    &&& r.1 matches OrderAction::Send(m) && m.chat_id == message.chat_id && m.text@
                        == message.text@
                },
                (OrderPoll::Sending { next }, OrderEvent::Delivered) => finishes(r, next),
                (s, _) => finishes(r, poll_offset(s)),
            },
    {
        match (state, event) {
            (OrderPoll::Updates { update_id }, OrderEvent::Updates(None)) => {
                (OrderPoll::Finished { next: update_id }, OrderAction::Finish(update_id))
            },
            (OrderPoll::Updates { update_id }, OrderEvent::Updates(Some(u))) => {
                let (next, request) = Self::prompt_request(update_id, &u);
                match request {
                    None => (OrderPoll::Finished { next }, OrderAction::Finish(next)),
                    Some(req) => {
                        let chat_id = u.result[0].message.chat.id;
                        (OrderPoll::Model { next, chat_id }, OrderAction::AskModel(req))
                    },
                }
            },
            (OrderPoll::Model { next, chat_id }, OrderEvent::ModelReply(reply)) => {
                match reply {
                    None => (OrderPoll::Finished { next }, OrderAction::Finish(next)),
                    Some(body) => (OrderPoll::Reading { next, chat_id }, OrderAction::ReadOrder(body)),
                }
            },
            (OrderPoll::Reading { next, chat_id }, OrderEvent::Order(o)) => {
                let request = Self::order_request(&o);
                let notice = Self::order_notice(&request);
                (
                    OrderPoll::Placing { next, chat_id, order: o, notice },
                    OrderAction::PlaceOrder(request),
                )
            },
            (OrderPoll::Placing { next, chat_id, order, notice }, OrderEvent::Status(status)) => {
                let (notify, message) = Self::order_reply(chat_id, &order, status);
                if notify {
                    (OrderPoll::Notifying { next, message }, OrderAction::Notify(notice))
                } else {
                    (OrderPoll::Sending { next }, OrderAction::Send(message))
                }
            },
            (OrderPoll::Notifying { next, message }, OrderEvent::Delivered) => {
                (OrderPoll::Sending { next }, OrderAction::Send(message))
            },
            (OrderPoll::Sending { next }, OrderEvent::Delivered) => {
                (OrderPoll::Finished { next }, OrderAction::Finish(next))
            },
            (s, _) => {
                let next = match s {
                    OrderPoll::Updates { update_id } => update_id,
                    OrderPoll::Model { next, .. } => next,
                    OrderPoll::Reading { next, .. } => next,
                    OrderPoll::Placing { next, .. } => next,
                    OrderPoll::Notifying { next, .. } => next,
                    OrderPoll::Sending { next } => next,
                    OrderPoll::Finished { next } => next,
                };
                (OrderPoll::Finished { next }, OrderAction::Finish(next))
            },
        }
    }
}

/// The message about a placed order is the verdict followed by exactly the
/// text that `OrderForm::debug_text` gives for that order.
pub proof fn lemma_reply_is_verdict_then_debug_text(ok: bool, order: OrderForm)
    ensures
        order_reply_text(ok, order) == order_verdict(ok) + order_debug(order),
        order_reply_text(ok, order).subrange(
            order_verdict(ok).len() as int,
            order_reply_text(ok, order).len() as int,
        ) == order_debug(order),
{
    let v = order_verdict(ok);
    let d = order_debug(order);
    assert((v + d).subrange(v.len() as int, (v + d).len() as int) =~= d);
}

/// The `Debug` text of an order shows its price and then its lot, as decimal
/// numbers: it ends with `, price: <price>, lot: <lot> }`.
pub proof fn lemma_debug_shows_price_then_lot(order: OrderForm)
    ensures
        exists|head: Seq<char>|
            order_debug(order) == head + ", price: "@ + decimal(order.price as nat) + ", lot: "@
                + decimal(order.lot as nat) + " }"@,
{
    let head = "OrderForm { symbol: "@ + str_debug(order.symbol@) + ", side: "@ + char_debug(
        order.side,
    );
    assert(order_debug(order) == head + ", price: "@ + decimal(order.price as nat) + ", lot: "@
        + decimal(order.lot as nat) + " }"@);
}

} // verus!

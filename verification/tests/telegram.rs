use stockbit_chatbot::server::Server;
use stockbit_chatbot::telegram::model::{Chat, GetUpdatesResp, Message, OrderForm, TelegramUpdate, User};
use stockbit_chatbot::telegram::svc::Telegram;
use stockbit_chatbot::telegram::svc::{OrderAction, OrderEvent, OrderPoll, MODEL_URL, ORDER_URL};

fn update(id: i64, chat: i64, text: &str) -> TelegramUpdate {
    TelegramUpdate {
        update_id: id,
        message: Message {
            message_id: 1,
            from: User { id: 9, is_bot: false, first_name: "A".to_string(), username: None, language_code: None },
            chat: Chat { id: chat, first_name: "A".to_string(), username: None, chat_type: "private".to_string() },
            date: 0,
            text: text.to_string(),
            entities: None,
        },
    }
}

fn original_prompt(user_input: &str) -> String {
    format!(
        "You are a strict trading order formatter.\n\
        Given a user's message about a trade order, extract and return ONLY a valid JSON object like this:\n\
        {{\"symbol\": \"SYMBOL\", \"price\": NUMBER, \"lot\": NUMBER, \"side\": \"B\" or \"S\"}}\n\n\
        Rules:\n\
        - Output ONLY the JSON object. No explanations or formatting like backticks.\n\
        - Keys must be: symbol, price, lot, side.\n\
        - Convert symbol to uppercase.\n\
        - Only allow known trading symbols like: XBTUSD, ETHUSD, SOLUSD, DOGEUSD, SUIUSD and etc .\n\
        - Convert human-like numbers (e.g. \"ten\", \"1 million\", \"10K\") into pure integers.\n\
        - Use \"B\" for buy and \"S\" for sell.\n\
        - Only return one order, even if the message mentions several.\n\
        - If key information is missing, return {{}}.\n\n\
        User: {}\n\
        Output:",
        user_input
    )
}

#[test]
fn build_prompt_wraps_the_message() {
    assert_eq!(Telegram::build_prompt("buy 10 lot XBTUSD at 100"), original_prompt("buy 10 lot XBTUSD at 100"));
    assert_eq!(Telegram::build_prompt(""), original_prompt(""));
}

#[test]
fn urls() {
    assert_eq!(Telegram::updates_url("https://t.me", "TOKEN", 616646863), "https://t.me/botTOKEN/getUpdates?offset=616646863");
    assert_eq!(Telegram::updates_url("u", "t", -12), "u/bott/getUpdates?offset=-12");
    assert_eq!(Telegram::updates_url("u", "t", i64::MIN), format!("u/bott/getUpdates?offset={}", i64::MIN));
    assert_eq!(Telegram::updates_url("u", "t", 0), "u/bott/getUpdates?offset=0");
    assert_eq!(Telegram::send_message_url("https://t.me", "TOKEN"), "https://t.me/botTOKEN/sendMessage");
}

#[test]
fn updates_body_needs_200() {
    assert_eq!(Telegram::updates_body(200, Some("x".to_string())), Some("x".to_string()));
    assert_eq!(Telegram::updates_body(200, None), None);
    assert_eq!(Telegram::updates_body(500, Some("x".to_string())), None);
}

#[test]
fn echo_reply_acknowledges_first_update() {
    let none = GetUpdatesResp { ok: true, result: vec![] };
    let (id, msg) = Server::echo_reply(41, &none);
    assert_eq!(id, 41);
    assert!(msg.is_none());
    let some = GetUpdatesResp { ok: true, result: vec![update(100, 7, "hi"), update(101, 8, "yo")] };
    let (id, msg) = Server::echo_reply(41, &some);
    assert_eq!(id, 101);
    let msg = msg.unwrap();
    assert_eq!(msg.chat_id, 7);
    assert_eq!(msg.text, "Echo hi");
}

#[test]
fn prompt_request_reads_last_message() {
    let none = GetUpdatesResp { ok: true, result: vec![] };
    let (id, req) = Telegram::prompt_request(5, &none);
    assert_eq!(id, 5);
    assert!(req.is_none());
    let some = GetUpdatesResp { ok: true, result: vec![update(100, 7, "first"), update(101, 8, "buy BTC")] };
    let (id, req) = Telegram::prompt_request(5, &some);
    assert_eq!(id, 101);
    let req = req.unwrap();
    assert_eq!(req.model, "gemma3:1b");
    assert_eq!(req.prompt, original_prompt("Echo buy BTC"));
    assert!(!req.stream);
}

#[test]
fn order_request_and_notice() {
    let order = OrderForm { symbol: "XBTUSD".to_string(), side: 'S', price: 100, lot: 3 };
    let req = Telegram::order_request(&order);
    assert_eq!(req.symbol, "XBTUSD");
    assert_eq!(req.side, 'B');
    assert_eq!(req.price, 100);
    assert_eq!(req.lot, 3);
    assert_eq!(req.expiry, "GTC");
    assert_eq!(req.user_id, 10);
    assert_eq!(Telegram::order_notice(&req), "XBTUSD order succeed");
}

#[test]
fn order_reply_shows_the_order() {
    let order = OrderForm { symbol: "SOL\"USD".to_string(), side: '\n', price: 4294967295, lot: 0 };
    let (notify, msg) = Telegram::order_reply(77, &order, 200);
    assert!(notify);
    assert_eq!(msg.chat_id, 77);
    assert_eq!(msg.text, format!("Succeed Buy \n {:?}", order));
    let (notify, msg) = Telegram::order_reply(77, &order, 500);
    assert!(!notify);
    assert_eq!(msg.text, format!("Failed Buy \n {:?}", order));
    assert_eq!(order.debug_text(), "OrderForm { symbol: \"SOL\\\"USD\", side: '\\n', price: 4294967295, lot: 0 }");
}

#[test]
fn order_step_runs_a_successful_poll() {
    let updates = GetUpdatesResp { ok: true, result: vec![update(100, 7, "first"), update(101, 8, "buy XBTUSD")] };
    let (state, action) = Telegram::order_step(OrderPoll::Updates { update_id: 5 }, OrderEvent::Updates(Some(updates)));
    match action {
        OrderAction::AskModel(req) => assert_eq!(req.prompt, original_prompt("Echo buy XBTUSD")),
        other => panic!("unexpected {:?}", other),
    }
    let (state, action) = Telegram::order_step(state, OrderEvent::ModelReply(Some("{\"response\":\"x\"}".to_string())));
    assert!(matches!(action, OrderAction::ReadOrder(ref b) if b == "{\"response\":\"x\"}"));
    let order = OrderForm { symbol: "XBTUSD".to_string(), side: 'S', price: 100, lot: 3 };
    let (state, action) = Telegram::order_step(state, OrderEvent::Order(order));
    match action {
        OrderAction::PlaceOrder(req) => {
            assert_eq!((req.symbol.as_str(), req.side, req.price, req.lot), ("XBTUSD", 'B', 100, 3));
            assert_eq!((req.expiry.as_str(), req.user_id), ("GTC", 10));
        }
        other => panic!("unexpected {:?}", other),
    }
    let (state, action) = Telegram::order_step(state, OrderEvent::Status(200));
    assert!(matches!(action, OrderAction::Notify(ref n) if n == "XBTUSD order succeed"));
    let (state, action) = Telegram::order_step(state, OrderEvent::Delivered);
    match action {
        OrderAction::Send(m) => {
            assert_eq!(m.chat_id, 7);
            assert!(m.text.starts_with("Succeed Buy \n OrderForm { symbol: \"XBTUSD\", side: 'S'"));
        }
        other => panic!("unexpected {:?}", other),
    }
    let (state, action) = Telegram::order_step(state, OrderEvent::Delivered);
    assert!(matches!(action, OrderAction::Finish(101)));
    assert!(matches!(state, OrderPoll::Finished { next: 101 }));
}

#[test]
fn order_step_stops_early() {
    let (_, action) = Telegram::order_step(OrderPoll::Updates { update_id: 5 }, OrderEvent::Updates(None));
    assert!(matches!(action, OrderAction::Finish(5)));
    let empty = GetUpdatesResp { ok: true, result: vec![] };
    let (_, action) = Telegram::order_step(OrderPoll::Updates { update_id: 5 }, OrderEvent::Updates(Some(empty)));
    assert!(matches!(action, OrderAction::Finish(5)));
    let (_, action) = Telegram::order_step(OrderPoll::Model { next: 9, chat_id: 1 }, OrderEvent::ModelReply(None));
    assert!(matches!(action, OrderAction::Finish(9)));
    let order = OrderForm { symbol: "A".to_string(), side: 'B', price: 1, lot: 1 };
    let placing = OrderPoll::Placing { next: 9, chat_id: 1, order, notice: "A order succeed".to_string() };
    let (state, action) = Telegram::order_step(placing, OrderEvent::Status(500));
    assert!(matches!(action, OrderAction::Send(ref m) if m.text.starts_with("Failed Buy \n ")));
    let (_, action) = Telegram::order_step(state, OrderEvent::Delivered);
    assert!(matches!(action, OrderAction::Finish(9)));
    let (_, action) = Telegram::order_step(OrderPoll::Sending { next: 3 }, OrderEvent::Status(200));
    assert!(matches!(action, OrderAction::Finish(3)));
}

#[test]
fn order_bot_addresses() {
    assert_eq!(MODEL_URL, "http://127.0.0.1:11434/api/generate");
    assert_eq!(ORDER_URL, "http://127.0.0.1:7878/order");
}

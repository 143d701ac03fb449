use mutao::blockchain::ethereum::{EthereumAdapter, EthereumConfig};
use mutao::blockchain::{ChainAdapter, ChainManager};
use mutao::error::AppError;
use mutao::handlers::ai::{analyze_output, analyze_result, check_description, AnalyzeReq, ScalpelOutput};
use mutao::handlers::auth_handler::{
    authenticate, ensure_username_free, login, login_response, new_user, register,
    validate_register, RegisterReq,
};
use mutao::handlers::blockchain_handler::{attest_item, item_history, AttestReq};
use mutao::handlers::cycles::{
    check_match_request, confirm_notification, confirm_response, confirm_swap, match_cycles,
    match_item, match_notification,
};
use mutao::handlers::demands::{create_demand, CreateDemandReq};
use mutao::handlers::items::{create_item, health, update_item_status, CreateItemReq};
use mutao::handlers::upload::{check_image_type, image_extension, upload_paths, upload_response};
use mutao::models::{Demand, Item, ItemStatus, SwapCycle, SwapLeg, User};
use mutao::auth::verify_token;
use uuid::Uuid;

const SECRET: &[u8] = b"test-secret";

fn item_req(title: &str, tags: Vec<&str>, value_tier: u8) -> CreateItemReq {
    CreateItemReq {
        title: title.into(),
        description: None,
        image_url: None,
        tags: tags.into_iter().map(String::from).collect(),
        value_tier,
    }
}

fn bad_request(r: Result<impl std::fmt::Debug, AppError>) -> String {
    match r {
        Err(AppError::BadRequest(m)) => m,
        other => panic!("expected a bad request, got {other:?}"),
    }
}

#[test]
fn test_create_item_success() {
    let owner = Uuid::new_v4().as_u128();
    let item = create_item(item_req("机械键盘", vec!["键盘"], 3), owner).unwrap();
    assert_eq!(item.title, "机械键盘");
    assert_eq!(item.owner_id, owner);
    assert_eq!(item.status, ItemStatus::Idle);
    assert_eq!(item.description, "");
}

#[test]
fn test_create_item_empty_title() {
    let m = bad_request(create_item(item_req("   ", vec!["x"], 3), 1));
    assert_eq!(m, "title 不能为空");
}

#[test]
fn test_create_item_empty_tags() {
    let m = bad_request(create_item(item_req("键盘", vec![], 3), 1));
    assert_eq!(m, "tags 不能为空");
}

#[test]
fn test_create_item_invalid_value_tier() {
    let m = bad_request(create_item(item_req("键盘", vec!["外设"], 0), 1));
    assert_eq!(m, "value_tier 必须在 1-5 之间");
    assert!(create_item(item_req("键盘", vec!["外设"], 6), 1).is_err());
    assert!(create_item(item_req("键盘", vec!["外设"], 5), 1).is_ok());
}

fn stored_item(owner: u128, status: ItemStatus) -> Item {
    Item {
        id: 9,
        owner_id: owner,
        title: "A 的物品".into(),
        description: String::new(),
        image_url: String::new(),
        tags: vec!["测试".into()],
        value_tier: 3,
        status,
        created_at: 0,
    }
}

#[test]
fn test_update_status_forbidden_for_non_owner() {
    let r = update_item_status(Some(stored_item(1, ItemStatus::Idle)), 2, ItemStatus::Matching);
    let (status, _) = r.unwrap_err().into_response();
    assert_eq!(status, 403);
}

#[test]
fn status_update_follows_lifecycle() {
    let it = update_item_status(Some(stored_item(1, ItemStatus::Idle)), 1, ItemStatus::Matching).unwrap();
    assert_eq!(it.status, ItemStatus::Matching);
    let m = bad_request(update_item_status(Some(stored_item(1, ItemStatus::Idle)), 1, ItemStatus::Completed));
    assert_eq!(m, "不能从 Idle 转换到 Completed");
    assert!(matches!(update_item_status(None, 1, ItemStatus::Matching), Err(AppError::NotFound)));
}

fn demand_req(offer: Vec<&str>, target: Vec<&str>) -> CreateDemandReq {
    CreateDemandReq {
        offer_item_id: 2,
        offer_tags: offer.into_iter().map(String::from).collect(),
        target_tags: target.into_iter().map(String::from).collect(),
    }
}

#[test]
fn test_create_demand_success() {
    let d = create_demand(demand_req(vec!["书籍"], vec!["键盘"]), 1).unwrap();
    assert_eq!(d.user_id, 1);
    assert_eq!(d.offer_item_id, 2);
    assert_eq!(d.target_tags, vec!["键盘".to_string()]);
}

#[test]
fn test_create_demand_empty_offer_tags() {
    assert_eq!(bad_request(create_demand(demand_req(vec![], vec!["键盘"]), 1)), "offer_tags 不能为空");
}

#[test]
fn test_create_demand_empty_target_tags() {
    assert_eq!(bad_request(create_demand(demand_req(vec!["书籍"], vec![]), 1)), "target_tags 不能为空");
}

#[test]
fn test_register_empty_username() {
    let req = RegisterReq { username: "   ".into(), password: "testpass123".into() };
    assert_eq!(bad_request(validate_register(&req)), "用户名不能为空");
}

#[test]
fn test_register_short_password() {
    let req = RegisterReq { username: "newuser".into(), password: "123".into() };
    assert_eq!(bad_request(validate_register(&req)), "密码长度至少 6 位");
    let ok = RegisterReq { username: "newuser".into(), password: "123456".into() };
    assert!(validate_register(&ok).is_ok());
}

#[test]
fn test_register_and_login() {
    let req = RegisterReq { username: "test_user".into(), password: "testpass123".into() };
    assert!(validate_register(&req).is_ok());
    assert!(ensure_username_free(None).is_ok());
    let user = new_user(&req).unwrap();
    let res = login_response(&user, SECRET).unwrap();
    assert_eq!(res.user_id, user.id);
    assert_eq!(verify_token(&res.token, SECRET).unwrap().sub, user.id);

    let logged_in = authenticate(Some(user.clone()), "testpass123").unwrap();
    assert_eq!(logged_in.id, user.id);
    assert_eq!(bad_request(ensure_username_free(Some(&user))), "用户名已存在");
}

#[test]
fn test_login_wrong_password() {
    let user = new_user(&RegisterReq { username: "u".into(), password: "correctpass".into() }).unwrap();
    assert_eq!(bad_request(authenticate(Some(user), "wrongpass")), "用户名或密码错误");
    assert_eq!(bad_request(authenticate(None, "wrongpass")), "用户名或密码错误");
}

#[test]
fn malformed_hash_is_internal_error() {
    let user = User { id: 1, username: "u".into(), password_hash: "not-a-hash".into(), created_at: 0 };
    match authenticate(Some(user), "pw") {
        Err(AppError::InternalMsg(m)) => assert!(m.starts_with("密码验证失败: ")),
        other => panic!("unexpected {other:?}"),
    }
}

fn leg(from: u128, offer: u128) -> SwapLeg {
    SwapLeg { from_user_id: from, to_user_id: 0, offer_item_id: offer, want_item_id: 0 }
}

#[test]
fn test_confirm_swap_not_found() {
    let cycles = vec![SwapCycle { id: 5, swaps: vec![leg(1, 11), leg(2, 12)], created_at: 0 }];
    let (status, _) = confirm_swap(&cycles, 6, 1).unwrap_err().into_response();
    assert_eq!(status, 404);
}

#[test]
fn confirm_swap_by_participant_and_outsider() {
    let cycles = vec![SwapCycle { id: 5, swaps: vec![leg(1, 11), leg(2, 12)], created_at: 0 }];
    assert_eq!(confirm_swap(&cycles, 5, 2).unwrap(), vec![11, 12]);
    let (status, body) = confirm_swap(&cycles, 5, 3).unwrap_err().into_response();
    assert_eq!(status, 403);
    assert!(body.contains("只有交换环参与者可以确认"));
}

#[test]
fn confirm_answers_match_json() {
    let id = Uuid::new_v4();
    let n = confirm_notification(id.as_u128(), 3);
    assert_eq!(n.event, "swap_confirmed");
    assert_eq!(n.data, format!("{{\"cycle_id\":\"{id}\",\"items_completed\":3}}"));
    assert_eq!(
        confirm_response(id.as_u128(), 3),
        format!("{{\"cycle_id\":\"{id}\",\"items_completed\":3,\"status\":\"confirmed\"}}")
    );
}

#[test]
fn match_request_and_notification() {
    let it = stored_item(1, ItemStatus::Idle);
    assert!(check_match_request(Some(&it), 1).is_ok());
    assert_eq!(check_match_request(Some(&it), 2).unwrap_err().status_code(), 403);
    assert_eq!(check_match_request(None, 1).unwrap_err().status_code(), 404);
    let id = Uuid::new_v4();
    assert!(match_notification(id.as_u128(), 0).is_none());
    let n = match_notification(id.as_u128(), 2).unwrap();
    assert_eq!(n.event, "match_found");
    assert_eq!(n.data, format!("{{\"cycles_count\":2,\"item_id\":\"{id}\"}}"));
}

#[test]
fn match_cycles_needs_two_demands() {
    let d = |user: u128, item: u128, offer: &str, want: &str| Demand {
        id: 0,
        user_id: user,
        offer_item_id: item,
        offer_tags: vec![offer.into()],
        target_tags: vec![want.into()],
        created_at: 0,
    };
    assert!(match_cycles(&[d(1, 11, "a", "b")]).is_empty());
    assert_eq!(match_cycles(&[d(1, 11, "a", "b"), d(2, 12, "b", "a")]).len(), 1);
}

#[test]
fn analyze_checks_and_output() {
    assert_eq!(
        bad_request(check_description(&AnalyzeReq { description: " \t\n".into() })),
        "description 不能为空"
    );
    assert!(check_description(&AnalyzeReq { description: "键盘".into() }).is_ok());
    let res = analyze_output(true, r#"{"tags":["键盘",3,"外设"],"value_tier":258,"method":"llm"}"#.as_bytes()).unwrap();
    assert_eq!(res.tags, vec!["键盘".to_string(), "外设".to_string()]);
    assert_eq!(res.value_tier, 2);
    assert_eq!(res.method, "llm");
    let res = analyze_output(true, b"{}").unwrap();
    assert!(res.tags.is_empty());
    assert_eq!(res.value_tier, 1);
    assert_eq!(res.method, "unknown");
    match analyze_output(false, b"{}") {
        Err(AppError::InternalMsg(m)) => assert_eq!(m, "标签提取失败"),
        other => panic!("unexpected {other:?}"),
    }
    match analyze_output(true, b"not json") {
        Err(AppError::InternalMsg(m)) => assert!(m.starts_with("解析 scalpel 输出失败: ")),
        other => panic!("unexpected {other:?}"),
    }
    let direct = analyze_result(ScalpelOutput { tags: Some(vec![None]), value_tier: Some(5), method: None });
    assert!(direct.tags.is_empty());
    assert_eq!(direct.value_tier, 5);
}

#[test]
fn upload_checks() {
    assert_eq!(check_image_type(Some("image/png")).unwrap(), "image/png");
    assert_eq!(bad_request(check_image_type(None)), "只支持图片文件");
    assert_eq!(bad_request(check_image_type(Some("text/plain"))), "只支持图片文件");
    assert_eq!(image_extension("image/jpeg", 10).unwrap(), "jpg");
    assert_eq!(image_extension("image/webp", 5 * 1024 * 1024).unwrap(), "webp");
    assert_eq!(bad_request(image_extension("image/jpeg", 5 * 1024 * 1024 + 1)), "文件大小不能超过 5MB");
    assert_eq!(bad_request(image_extension("image/bmp", 10)), "不支持的图片格式");
    let id = Uuid::new_v4();
    let (path, url) = upload_paths(id.as_u128(), "png");
    assert_eq!(path, format!("uploads/{id}.png"));
    assert_eq!(url, format!("/uploads/{id}.png"));
    assert_eq!(upload_response(&url, 42), format!("{{\"image_url\":\"{url}\",\"size\":42}}"));
}

#[test]
fn attest_and_history() {
    let id = Uuid::new_v4();
    let it = stored_item(1, ItemStatus::Idle);
    let req = || AttestReq { from_user: "a".into(), to_user: "b".into(), item_name: "键盘".into(), message: None };
    let empty = ChainManager::new();
    match attest_item(&empty, Some(&it), id.as_u128(), req()) {
        Err(AppError::InternalMsg(m)) => assert_eq!(m, "链上存证失败: 不支持的链: Ethereum"),
        other => panic!("unexpected {other:?}"),
    }
    assert!(matches!(attest_item(&empty, None, id.as_u128(), req()), Err(AppError::NotFound)));
    let mut chains = ChainManager::new();
    chains.register(ChainAdapter::Ethereum(EthereumAdapter::new(EthereumConfig {
        rpc_url: "http://localhost".into(),
        contract_address: "0xabc".into(),
        chain_id: 1,
    })));
    let body = attest_item(&chains, Some(&it), id.as_u128(), req()).unwrap();
    let expected = format!(
        "{{\"chain\":\"Ethereum\",\"item_id\":\"{id}\",\"status\":\"Pending\",\"tx_hash\":\"0x{:064x}\"}}",
        0
    );
    assert_eq!(body, expected);
    let history = item_history(&chains, true, id.as_u128()).unwrap();
    assert_eq!(history, format!("{{\"chain\":\"Ethereum\",\"item_id\":\"{id}\",\"records\":[]}}"));
    assert!(matches!(item_history(&chains, false, id.as_u128()), Err(AppError::NotFound)));
}

#[test]
fn test_health_endpoint() {
    let body: serde_json::Value = serde_json::from_str(&health()).unwrap();
    assert_eq!(body["status"], "ok");
    assert_eq!(body["name"], "木桃 Mutao");
}

#[test]
fn match_item_checks_owner_and_finds_cycles() {
    let it = stored_item(1, ItemStatus::Idle);
    let d = |user: u128, item: u128, offer: &str, want: &str| Demand {
        id: 0,
        user_id: user,
        offer_item_id: item,
        offer_tags: vec![offer.into()],
        target_tags: vec![want.into()],
        created_at: 0,
    };
    let demands = vec![d(1, 11, "a", "b"), d(2, 12, "b", "a")];
    assert!(matches!(match_item(9, None, 1, &demands), Err(AppError::NotFound)));
    assert!(matches!(match_item(9, Some(&it), 2, &demands), Err(AppError::Forbidden(_))));
    let (cycles, note) = match_item(9, Some(&it), 1, &demands).unwrap();
    assert_eq!(cycles.len(), 1);
    assert_eq!(note.unwrap().event, "match_found");
    let (none, no_note) = match_item(9, Some(&it), 1, &demands[..1]).unwrap();
    assert!(none.is_empty());
    assert!(no_note.is_none());
}

#[test]
fn register_then_login() {
    let req = RegisterReq { username: "dana".into(), password: "secret123".into() };
    let user = register(&req, None).unwrap();
    assert_eq!(bad_request(register(&req, Some(&user))), "用户名已存在");
    let res = login(Some(user.clone()), "secret123", SECRET).unwrap();
    assert_eq!(res.username, "dana");
    assert_eq!(bad_request(login(Some(user), "wrong", SECRET)), "用户名或密码错误");
}

#[test]
fn register_refuses_in_order() {
    let taken = new_user(&RegisterReq { username: "taken".into(), password: "testpass123".into() }).unwrap();
    let blank = RegisterReq { username: "  ".into(), password: "1".into() };
    assert_eq!(bad_request(register(&blank, Some(&taken))), "用户名不能为空");
    let short = RegisterReq { username: "taken".into(), password: "12345".into() };
    assert_eq!(bad_request(register(&short, Some(&taken))), "密码长度至少 6 位");
    let dup = RegisterReq { username: "taken".into(), password: "123456".into() };
    assert_eq!(bad_request(register(&dup, Some(&taken))), "用户名已存在");
    let fresh = register(&dup, None).unwrap();
    assert_eq!(fresh.username, "taken");
}

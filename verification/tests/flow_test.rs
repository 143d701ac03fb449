use mutao::auth::{authorize, verify_token, LoginRes};
use mutao::error::AppError;
use mutao::handlers::auth_handler::{login, login_response, register, validate_register, RegisterReq};
use mutao::handlers::cycles::{confirm_response, confirm_swap, match_item};
use mutao::handlers::demands::{create_demand, CreateDemandReq};
use mutao::handlers::items::{create_item, update_item_status, CreateItemReq};
use mutao::models::{Demand, Item, ItemStatus, SwapCycle, User};

const SECRET: &[u8] = b"flow-test-secret";

/// What the server keeps between requests, held in memory.
#[derive(Default)]
struct Memory {
    users: Vec<User>,
    items: Vec<Item>,
    demands: Vec<Demand>,
    cycles: Vec<SwapCycle>,
}

impl Memory {
    fn register(&mut self, username: &str, password: &str) -> Result<LoginRes, AppError> {
        let req = RegisterReq { username: username.into(), password: password.into() };
        validate_register(&req)?;
        let existing = self.users.iter().find(|u| u.username == username).cloned();
        let user = register(&req, existing.as_ref())?;
        self.users.push(user.clone());
        login_response(&user, SECRET)
    }

    fn login(&self, username: &str, password: &str) -> Result<LoginRes, AppError> {
        let user = self.users.iter().find(|u| u.username == username).cloned();
        login(user, password, SECRET)
    }

    fn user_of(&self, token: &str) -> u128 {
        let header = format!("Bearer {token}");
        authorize(Some(header.as_str()), SECRET).unwrap().sub
    }

    fn create_item(&mut self, token: &str, title: &str, tags: Vec<&str>, value_tier: u8) -> Item {
        let req = CreateItemReq {
            title: title.into(),
            description: None,
            image_url: None,
            tags: tags.into_iter().map(String::from).collect(),
            value_tier,
        };
        let item = create_item(req, self.user_of(token)).unwrap();
        self.items.push(item.clone());
        item
    }

    fn create_demand(&mut self, token: &str, item: u128, offer: Vec<&str>, target: Vec<&str>) {
        let req = CreateDemandReq {
            offer_item_id: item,
            offer_tags: offer.into_iter().map(String::from).collect(),
            target_tags: target.into_iter().map(String::from).collect(),
        };
        let demand = create_demand(req, self.user_of(token)).unwrap();
        self.demands.push(demand);
    }

    fn item(&self, id: u128) -> Option<Item> {
        self.items.iter().find(|i| i.id == id).cloned()
    }

    fn match_item(&mut self, token: &str, item: u128) -> Vec<SwapCycle> {
        let stored = self.item(item);
        let (cycles, _) = match_item(item, stored.as_ref(), self.user_of(token), &self.demands).unwrap();
        self.cycles.extend(cycles.iter().cloned());
        cycles
    }

    fn confirm(&mut self, token: &str, cycle_id: u128) -> Result<String, AppError> {
        let completed = confirm_swap(&self.cycles, cycle_id, self.user_of(token))?;
        for id in &completed {
            for item in self.items.iter_mut().filter(|i| i.id == *id) {
                item.status = ItemStatus::Completed;
            }
        }
        Ok(confirm_response(cycle_id, completed.len()))
    }

    fn set_status(&mut self, token: &str, item: u128, target: ItemStatus) -> Result<Item, AppError> {
        let updated = update_item_status(self.item(item), self.user_of(token), target)?;
        for stored in self.items.iter_mut().filter(|i| i.id == item) {
            stored.status = target;
        }
        Ok(updated)
    }
}

#[test]
fn e2e_full_swap_flow() {
    let mut m = Memory::default();
    let token_a = m.register("alice", "testpass123").unwrap().token;
    let token_b = m.register("bob", "testpass123").unwrap().token;

    let item_a = m.create_item(&token_a, "Rust 编程之道", vec!["书籍", "编程"], 3);
    let item_b = m.create_item(&token_b, "机械键盘", vec!["键盘", "外设"], 3);
    m.create_demand(&token_a, item_a.id, vec!["书籍"], vec!["键盘"]);
    m.create_demand(&token_b, item_b.id, vec!["键盘"], vec!["书籍"]);

    let cycles = m.match_item(&token_a, item_a.id);
    assert!(!cycles.is_empty(), "should find at least one cycle");

    let cycle = m
        .cycles
        .iter()
        .find(|c| c.swaps.iter().any(|s| s.offer_item_id == item_a.id))
        .expect("should find cycle containing our items")
        .id;
    let answer = m.confirm(&token_a, cycle).unwrap();
    assert!(answer.contains("\"status\":\"confirmed\""));

    assert_eq!(m.item(item_a.id).unwrap().status, ItemStatus::Completed);
    assert_eq!(m.item(item_b.id).unwrap().status, ItemStatus::Completed);
}

#[test]
fn e2e_confirm_swap_forbidden_for_outsider() {
    let mut m = Memory::default();
    let token_a = m.register("pa", "testpass123").unwrap().token;
    let token_b = m.register("pb", "testpass123").unwrap().token;
    let token_c = m.register("pc", "testpass123").unwrap().token;

    let item_a = m.create_item(&token_a, "书", vec!["书籍"], 3);
    let item_b = m.create_item(&token_b, "键盘", vec!["键盘"], 3);
    m.create_demand(&token_a, item_a.id, vec!["书籍"], vec!["键盘"]);
    m.create_demand(&token_b, item_b.id, vec!["键盘"], vec!["书籍"]);
    m.match_item(&token_a, item_a.id);

    let cycle = m
        .cycles
        .iter()
        .find(|c| c.swaps.iter().any(|s| s.offer_item_id == item_a.id))
        .expect("cycle should exist")
        .id;
    let (status, _) = m.confirm(&token_c, cycle).unwrap_err().into_response();
    assert_eq!(status, 403);
}

#[test]
fn e2e_duplicate_registration() {
    let mut m = Memory::default();
    assert!(m.register("dup", "testpass123").is_ok());
    let (status, body) = m.register("dup", "testpass123").unwrap_err().into_response();
    assert_eq!(status, 400);
    assert!(body.contains("已存在"));
}

#[test]
fn e2e_login_wrong_password() {
    let mut m = Memory::default();
    m.register("wrong", "testpass123").unwrap();
    let (status, body) = m.login("wrong", "wrongpassword").unwrap_err().into_response();
    assert_eq!(status, 400);
    assert!(body.contains("错误"));

    let res = m.login("wrong", "testpass123").unwrap();
    assert_eq!(verify_token(&res.token, SECRET).unwrap().username, "wrong");
}

#[test]
fn e2e_item_status_transitions() {
    let mut m = Memory::default();
    let token = m.register("status", "testpass123").unwrap().token;
    let item = m.create_item(&token, "测试物品", vec!["测试"], 2);
    assert_eq!(item.status, ItemStatus::Idle);

    let updated = m.set_status(&token, item.id, ItemStatus::Matching).unwrap();
    assert_eq!(updated.status, ItemStatus::Matching);
    let updated = m.set_status(&token, item.id, ItemStatus::Completed).unwrap();
    assert_eq!(updated.status, ItemStatus::Completed);
    let updated = m.set_status(&token, item.id, ItemStatus::Archived).unwrap();
    assert_eq!(updated.status, ItemStatus::Archived);

    let (status, _) = m.set_status(&token, item.id, ItemStatus::Idle).unwrap_err().into_response();
    assert_eq!(status, 400);
}

#[test]
fn e2e_no_cycle_found() {
    let mut m = Memory::default();
    let token = m.register("nocycle", "testpass123").unwrap().token;
    let item = m.create_item(&token, "独物品", vec!["unique_nocycle"], 5);
    m.create_demand(&token, item.id, vec!["unique_nocycle"], vec!["unique_target"]);
    assert!(m.match_item(&token, item.id).is_empty());
}

#[test]
fn test_create_item_unauthorized() {
    assert_eq!(authorize(None, SECRET).unwrap_err(), 401);
}

#[test]
fn test_create_demand_unauthorized() {
    assert_eq!(authorize(None, SECRET).unwrap_err(), 401);
}

#[test]
fn test_confirm_swap_unauthorized() {
    assert_eq!(authorize(None, SECRET).unwrap_err(), 401);
}

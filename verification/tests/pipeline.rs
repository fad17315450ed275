use deposit_calc::cache::{CalcResult, ResultCache};
use deposit_calc::calculator::Req;
use deposit_calc::config::{Config, Order, Product, RenewType, TermType};
use deposit_calc::decimal::Dec2;
use deposit_calc::session::{compute_batch, refresh_products, Session};

fn sample_order() -> Order {
    Order {
        principal: Dec2 { cents: 1_000_000 },
        save_date: 20230101,
        draw_date: 20241231,
        days: 730,
    }
}

fn sample_product(renew_type: RenewType) -> Product {
    Product {
        term: 7,
        term_type: TermType::D,
        int_rate: Dec2 { cents: 185 },
        bean_rate: Dec2 { cents: 300 },
        renew_type,
        interest: Dec2 { cents: 0 },
        bean_int: Dec2 { cents: 0 },
    }
}

#[test]
fn cache_returns_stored_result_on_every_lookup() {
    let mut cache = ResultCache::new();
    let fp = Req::new(&sample_order(), &sample_product(RenewType::N));
    assert_eq!(cache.get(&fp), None);
    let res = CalcResult {
        interest: Dec2 { cents: 360 },
        bean_int: Dec2 { cents: 583 },
    };
    cache.insert(fp, res);
    assert_eq!(cache.get(&fp), Some(res));
    assert_eq!(cache.get(&fp), Some(res));
}

#[test]
fn cache_overwrites_on_reinsert() {
    let mut cache = ResultCache::new();
    let fp = Req::new(&sample_order(), &sample_product(RenewType::N));
    let a = CalcResult {
        interest: Dec2 { cents: 1 },
        bean_int: Dec2 { cents: 2 },
    };
    let b = CalcResult {
        interest: Dec2 { cents: 3 },
        bean_int: Dec2 { cents: 4 },
    };
    cache.insert(fp, a);
    cache.insert(fp, b);
    assert_eq!(cache.get(&fp), Some(b));
}

#[test]
fn fingerprint_ignores_derived_days() {
    // Two orders differing only in the derived `days` field map to the
    // same fingerprint; a difference in a fingerprinted field does not.
    let mut o1 = sample_order();
    let mut o2 = sample_order();
    o1.days = 1;
    o2.days = 999;
    let p = sample_product(RenewType::P);
    assert_eq!(Req::new(&o1, &p), Req::new(&o2, &p));
    o2.principal = Dec2 { cents: 999 };
    assert_ne!(Req::new(&o1, &p), Req::new(&o2, &p));
}

#[test]
fn fingerprint_ignores_product_outputs() {
    let o = sample_order();
    let mut p1 = sample_product(RenewType::P);
    let mut p2 = sample_product(RenewType::P);
    p1.interest = Dec2 { cents: 111 };
    p2.interest = Dec2 { cents: 222 };
    assert_eq!(Req::new(&o, &p1), Req::new(&o, &p2));
}

#[test]
fn session_miss_enqueues_and_hit_does_not() {
    let order = sample_order();
    let mut session = Session::new(&order, &Vec::new());
    let fp = Req::new(&order, &sample_product(RenewType::N));
    assert_eq!(session.request(fp), None);
    // The same fingerprint again: still a miss, enqueued a second time.
    assert_eq!(session.request(fp), None);
    let batch = session.take_batch();
    // Duplicates are coalesced into one batch entry.
    assert_eq!(batch.len(), 1);
    assert_eq!(batch[0], fp);
    // Nothing remains pending.
    assert_eq!(session.take_batch().len(), 0);
}

#[test]
fn worker_roundtrip_fills_cache() {
    let order = sample_order();
    let mut session = Session::new(&order, &Vec::new());
    let fp_n = Req::new(&order, &sample_product(RenewType::N));
    let fp_p = Req::new(&order, &sample_product(RenewType::P));
    session.request(fp_n);
    session.request(fp_p);
    let batch = session.take_batch();
    assert_eq!(batch.len(), 2);
    let results = compute_batch(&batch);
    session.merge_batch(&results);
    let expected_n = deposit_calc::calculator::calc(&fp_n);
    let hit = session.cache_get(&fp_n).unwrap();
    assert_eq!((hit.interest, hit.bean_int), expected_n);
    // A second request is now a hit and enqueues nothing.
    assert_eq!(session.request(fp_n), Some(hit));
    assert_eq!(session.take_batch().len(), 0);
}

#[test]
fn session_is_seeded_from_stored_outputs() {
    let order = sample_order();
    let mut product = sample_product(RenewType::N);
    product.interest = Dec2 { cents: 360 };
    product.bean_int = Dec2 { cents: 583 };
    let products = vec![product];
    let session = Session::new(&order, &products);
    let hit = session.cache_get(&Req::new(&order, &product)).unwrap();
    assert_eq!(hit.interest, Dec2 { cents: 360 });
    assert_eq!(hit.bean_int, Dec2 { cents: 583 });
}

#[test]
fn refresh_writes_cached_results_into_products() {
    let order = sample_order();
    let mut session = Session::new(&order, &Vec::new());
    let mut products = vec![
        sample_product(RenewType::N),
        sample_product(RenewType::P),
    ];
    let fp = Req::new(&order, &products[0]);
    session.request(fp);
    let results = compute_batch(&session.take_batch());
    session.merge_batch(&results);
    refresh_products(&session, &order, &mut products);
    // The computed product got its outputs; the uncomputed one kept its.
    assert_eq!(products[0].interest, Dec2 { cents: 360 });
    assert_eq!(products[0].bean_int, Dec2 { cents: 583 });
    assert_eq!(products[1].interest, Dec2 { cents: 0 });
    assert_eq!(products[1].bean_int, Dec2 { cents: 0 });
}

#[test]
fn stock_configuration_holds_twelve_products() {
    let cfg = Config::with_order(sample_order());
    assert_eq!(cfg.products.len(), 12);
    assert_eq!(cfg.order.save_date, 20230101);
    let first = &cfg.products[0];
    assert_eq!(first.term, 7);
    assert!(matches!(first.term_type, TermType::D));
    assert_eq!(first.int_rate, Dec2 { cents: 185 });
    assert_eq!(first.bean_rate, Dec2 { cents: 300 });
    assert!(matches!(first.renew_type, RenewType::P));
    let last = &cfg.products[11];
    assert_eq!(last.term, 5);
    assert!(matches!(last.term_type, TermType::Y));
    assert_eq!(last.int_rate, Dec2 { cents: 365 });
    assert!(matches!(last.renew_type, RenewType::I));
}

#[test]
fn enum_labels_and_conversions() {
    assert_eq!(TermType::from(0_usize).label(), "天");
    assert_eq!(TermType::from(1_usize).label(), "月");
    assert_eq!(TermType::from(2_usize).label(), "年");
    assert_eq!(RenewType::from(0_usize).label(), "不续存");
    assert_eq!(RenewType::from(1_usize).label(), "本金续存");
    assert_eq!(RenewType::from(2_usize).label(), "本息续存");
    assert!(matches!(TermType::default(), TermType::D));
    assert!(matches!(RenewType::default(), RenewType::N));
}

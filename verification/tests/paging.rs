use cart_discount::cart::{Page, Product};
use cart_discount::paging::{Delivery, PageRequest, Pagination, Paginator};

fn pagination(total: i32, per_page: i32) -> Pagination {
    Pagination { current_page: 1, per_page, total }
}

fn page_of(prices: &[i32], total: i32, per_page: i32) -> Page {
    let products = prices
        .iter()
        .map(|price| Product { name: format!("item {}", price), price: *price, collection: None })
        .collect();
    Page { products, pagination: pagination(total, per_page) }
}

#[test]
fn page_count_rounds_up() {
    assert_eq!(pagination(25, 10).page_count(), 3);
    assert_eq!(pagination(30, 10).page_count(), 3);
    assert_eq!(pagination(31, 10).page_count(), 4);
    assert_eq!(pagination(1, 10).page_count(), 1);
    assert_eq!(pagination(10, 10).page_count(), 1);
    assert_eq!(pagination(11, 10).page_count(), 2);
    assert_eq!(pagination(7, 1).page_count(), 7);
}

#[test]
fn page_count_of_nothing_is_zero() {
    assert_eq!(pagination(0, 10).page_count(), 0);
    assert_eq!(pagination(0, 0).page_count(), 0);
    assert_eq!(pagination(0, -3).page_count(), 0);
}

#[test]
fn page_count_with_zero_per_page_is_zero() {
    assert_eq!(pagination(25, 0).page_count(), 0);
    assert_eq!(pagination(-25, 0).page_count(), 0);
    assert_eq!(pagination(i32::MAX, 0).page_count(), 0);
}

#[test]
fn page_count_of_a_negative_quotient_is_zero() {
    assert_eq!(pagination(-25, 10).page_count(), 0);
    assert_eq!(pagination(25, -10).page_count(), 0);
    assert_eq!(pagination(i32::MIN, 1).page_count(), 0);
    assert_eq!(pagination(i32::MAX, -1).page_count(), 0);
}

#[test]
fn page_count_of_two_negative_numbers_goes_by_the_quotient() {
    assert_eq!(pagination(-25, -10).page_count(), 3);
    assert_eq!(pagination(-30, -10).page_count(), 3);
    assert_eq!(pagination(-1, -10).page_count(), 1);
}

#[test]
fn page_count_at_the_limits() {
    assert_eq!(pagination(i32::MAX, 1).page_count(), 2147483647);
    assert_eq!(pagination(i32::MAX, i32::MAX).page_count(), 1);
    assert_eq!(pagination(i32::MAX, 2).page_count(), 1073741824);
    assert_eq!(pagination(i32::MIN, -1).page_count(), 2147483648);
    assert_eq!(pagination(i32::MIN, i32::MIN).page_count(), 1);
    assert_eq!(pagination(1, i32::MAX).page_count(), 1);
}

#[test]
fn is_last_compares_the_next_page_with_the_page_count() {
    let p = pagination(25, 10);
    assert!(!p.is_last(1));
    assert!(!p.is_last(2));
    assert!(p.is_last(3));
    assert!(p.is_last(4));
    assert!(p.is_last(u32::MAX));
    assert!(!p.is_last(0));
}

#[test]
fn is_last_on_degenerate_numbers() {
    assert!(pagination(25, 0).is_last(1));
    assert!(pagination(0, 10).is_last(1));
    assert!(pagination(0, 0).is_last(1));
    assert!(pagination(-5, 10).is_last(1));
    assert!(pagination(5, -10).is_last(1));
    assert!(pagination(25, 0).is_last(0));
}

#[test]
fn is_last_ignores_the_reported_current_page() {
    let p = Pagination { current_page: 3, per_page: 10, total: 25 };
    assert!(!p.is_last(1));
    let q = Pagination { current_page: 1, per_page: 10, total: 25 };
    assert!(q.is_last(3));
}

#[test]
fn paginator_starts_at_page_one() {
    let pager = Paginator::new(17);
    assert_eq!(pager.request(), PageRequest { id: 17, page: 1 });
}

#[test]
fn paginator_fetches_three_pages_of_twenty_five_products_by_ten() {
    let mut requested: Vec<u32> = Vec::new();
    let mut yielded: Vec<Vec<i32>> = Vec::new();
    let mut pager = Some(Paginator::new(4));
    while let Some(current) = pager.take() {
        let request = current.request();
        assert_eq!(request.id, 4);
        requested.push(request.page);
        assert!(request.page <= 3, "page {} must not be requested", request.page);
        let prices: Vec<i32> = if request.page < 3 { vec![1; 10] } else { vec![1; 5] };
        match current.deliver::<String>(Ok(page_of(&prices, 25, 10))) {
            Delivery::More(products, rest) => {
                yielded.push(products.iter().map(|p| p.price).collect());
                pager = Some(rest);
            }
            Delivery::Last(products) => {
                yielded.push(products.iter().map(|p| p.price).collect());
            }
            Delivery::Failed(error) => panic!("no fetch failed: {}", error),
        }
    }
    assert_eq!(requested, vec![1, 2, 3]);
    assert_eq!(yielded, vec![vec![1; 10], vec![1; 10], vec![1; 5]]);
}

#[test]
fn paginator_hands_the_products_on_in_order() {
    let pager = Paginator::new(1);
    match pager.deliver::<String>(Ok(page_of(&[3, 1, 2], 3, 10))) {
        Delivery::Last(products) => {
            let prices: Vec<i32> = products.iter().map(|p| p.price).collect();
            assert_eq!(prices, vec![3, 1, 2]);
            assert_eq!(products[0].name, "item 3");
        }
        _ => panic!("a single page is the last"),
    }
}

#[test]
fn paginator_ends_on_a_failure() {
    let pager = Paginator::new(1);
    match pager.deliver::<String>(Err(String::from("connection refused"))) {
        Delivery::Failed(error) => assert_eq!(error, "connection refused"),
        _ => panic!("a failed request ends the sequence"),
    }
}

#[test]
fn paginator_ends_on_a_failure_after_a_page() {
    let pager = Paginator::new(1);
    let rest = match pager.deliver::<u16>(Ok(page_of(&[1, 2], 4, 2))) {
        Delivery::More(_, rest) => rest,
        _ => panic!("page 1 of 2 is not the last"),
    };
    assert_eq!(rest.request(), PageRequest { id: 1, page: 2 });
    match rest.deliver::<u16>(Err(503)) {
        Delivery::Failed(error) => assert_eq!(error, 503),
        _ => panic!("a failed request ends the sequence"),
    }
}

#[test]
fn paginator_stops_when_per_page_is_zero() {
    let pager = Paginator::new(1);
    assert!(matches!(
        pager.deliver::<String>(Ok(page_of(&[5], 25, 0))),
        Delivery::Last(_)
    ));
}

#[test]
fn paginator_stops_when_total_is_zero() {
    let pager = Paginator::new(1);
    match pager.deliver::<String>(Ok(page_of(&[], 0, 10))) {
        Delivery::Last(products) => assert!(products.is_empty()),
        _ => panic!("an empty cart has one page"),
    }
}

#[test]
fn paginator_goes_by_the_numbers_of_the_latest_page() {
    let pager = Paginator::new(9);
    let rest = match pager.deliver::<String>(Ok(page_of(&[1], 100, 1))) {
        Delivery::More(_, rest) => rest,
        _ => panic!("page 1 of 100 is not the last"),
    };
    assert_eq!(rest.request(), PageRequest { id: 9, page: 2 });
    assert!(matches!(
        rest.deliver::<String>(Ok(page_of(&[1], 2, 1))),
        Delivery::Last(_)
    ));
}

use web_router::extract::{extract_in_order, Extraction};

#[test]
fn extraction_stops_at_first_error() {
    let r: Result<Vec<u32>, &str> = extract_in_order(vec![Ok(1), Err("bad"), Err("worse"), Ok(4)]);
    assert_eq!(r, Err("bad"));
}

#[test]
fn extraction_collects_values_in_order() {
    let r: Result<Vec<u32>, &str> = extract_in_order(vec![Ok(1), Ok(2), Ok(3)]);
    assert_eq!(r, Ok(vec![1, 2, 3]));
    let r: Result<Vec<u32>, &str> = extract_in_order(Vec::new());
    assert_eq!(r, Ok(Vec::new()));
}

#[test]
fn extraction_step_by_step() {
    let mut ex: Extraction<&str, u16> = Extraction::new(3);
    assert_eq!(ex.next(), Some(0));
    ex.offer(Ok("a"));
    assert_eq!(ex.next(), Some(1));
    ex.offer(Err(400));
    assert_eq!(ex.next(), None);
    match ex.finish() {
        Ok(Err(e)) => assert_eq!(e, 400),
        _ => panic!("the failed extraction was not reported"),
    }

    let mut ex: Extraction<&str, u16> = Extraction::new(2);
    ex.offer(Ok("a"));
    let mut ex = match ex.finish() {
        Err(ex) => ex,
        Ok(_) => panic!("finished with an argument left"),
    };
    ex.offer(Ok("b"));
    match ex.finish() {
        Ok(Ok(vs)) => assert_eq!(vs, vec!["a", "b"]),
        _ => panic!("values not given"),
    }
}

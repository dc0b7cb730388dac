use stock_ticker::minute::{minute_from_value, minute_url, parse_minute, parse_point, MinutePoint};

const SAMPLE: &str = r#"{
  "code": 0, "msg": "",
  "data": {
    "sh600519": {
      "qt": { "sh600519": ["1","贵州茅台","600519","1185.56","1190.00","1199.00"] },
      "data": {
        "date": "20260626",
        "data": [
          "0930 1199.00 969 116183100.00",
          "0931 1193.85 2240 268166759.81",
          "0932 1191.00 3320 397112727.32"
        ]
      }
    }
  }
}"#;

/// The average price of a point, as the chart draws it: amount / (volume * 100), the price
/// where there is no volume, rounded to three places.
fn avg_of(p: &MinutePoint) -> f64 {
    let price: f64 = p.price.parse().unwrap();
    let volume: f64 = p.volume.as_ref().map(|v| v.parse().unwrap()).unwrap_or(0.0);
    let amount: f64 = p.amount.as_ref().map(|a| a.parse().unwrap()).unwrap_or(0.0);
    let avg = if volume > 0.0 { amount / (volume * 100.0) } else { price };
    (avg * 1000.0).round() / 1000.0
}

#[test]
fn parse_points_and_meta() {
    let md = parse_minute(SAMPLE, "sh600519").expect("should parse");
    assert_eq!(md.code, "sh600519");
    assert_eq!(md.date, "20260626");
    assert_eq!(md.prev_close.as_ref().map(|p| p.parse::<f64>().unwrap()), Some(1190.00));
    assert_eq!(md.points.len(), 3);
    assert_eq!(md.points[0].time, "09:30");
    assert_eq!(md.points[0].price.parse::<f64>().unwrap(), 1199.00);
    let avg = avg_of(&md.points[0]);
    assert!((avg - 1198.999).abs() < 0.01, "avg={}", avg);
}

#[test]
fn missing_code_returns_none() {
    assert!(parse_minute(SAMPLE, "sh000001").is_none());
}

#[test]
fn invalid_json_returns_none() {
    assert!(parse_minute("not json", "sh600519").is_none());
}

#[test]
fn skips_short_point() {
    let json = r#"{"data":{"x":{"data":{"date":"20260626","data":["0930 10.00 5 5000.00","bad"]}}}}"#;
    let md = parse_minute(json, "x").unwrap();
    assert_eq!(md.points.len(), 1);
    assert_eq!(md.prev_close, None);
}

#[test]
fn minute_url_appends_code() {
    assert_eq!(
        minute_url("sh600519"),
        "https://web.ifzq.gtimg.cn/appstock/app/minute/query?code=sh600519"
    );
}

#[test]
fn point_needs_four_words_and_a_price() {
    assert!(parse_point("0930 10.00 5").is_none());
    assert!(parse_point("0930 x 5 5000").is_none());
    assert!(parse_point("093 10.00 5 5000").is_none());
    let p = parse_point("  0930\t10.00  x 5000.5 extra").unwrap();
    assert_eq!(p.time, "09:30");
    assert_eq!(p.price, "10.00");
    assert_eq!(p.volume, None);
    assert_eq!(p.amount.as_deref(), Some("5000.5"));
    assert_eq!(avg_of(&p), 10.0);
}

#[test]
fn point_time_is_cut_at_bytes() {
    // 'é' takes two bytes: "éé" is four bytes, cut at byte 2.
    let p = parse_point("éé 1 2 3").unwrap();
    assert_eq!(p.time, "é:é");
    // A cut inside a character makes the point malformed.
    assert!(parse_point("0é30 1 2 3").is_none());
    assert!(parse_point("09一 1 2 3").is_none());
    assert_eq!(parse_point("09é0 1 2 3").unwrap().time, "09:é");
    let p = parse_point("093000 1 2 3").unwrap();
    assert_eq!(p.time, "09:30");
}

#[test]
fn series_missing_or_not_an_array() {
    assert!(parse_minute(r#"{"data":{"x":{"data":{"date":"d"}}}}"#, "x").is_none());
    assert!(parse_minute(r#"{"data":{"x":{"data":{"data":"0930 1 2 3"}}}}"#, "x").is_none());
    assert!(parse_minute(r#"{"data":{"x":{}}}"#, "x").is_none());
    assert!(parse_minute(r#"[1,2]"#, "x").is_none());
}

#[test]
fn date_and_prev_close_are_optional() {
    let json = r#"{"data":{"x":{"qt":{"x":["a","b","c","d","oops"]},"data":{"date":7,"data":[5,"0930 1 2 3"]}}}}"#;
    let md = parse_minute(json, "x").unwrap();
    assert_eq!(md.date, "");
    assert_eq!(md.prev_close, None);
    assert_eq!(md.points.len(), 1);
    let json = r#"{"data":{"x":{"qt":{"x":["a","b","c","d","12.5"]},"data":{"data":[]}}}}"#;
    let md = parse_minute(json, "x").unwrap();
    assert_eq!(md.prev_close.as_deref(), Some("12.5"));
    assert!(md.points.is_empty());
}

#[test]
fn series_of_a_read_document() {
    let v: serde_json::Value = serde_json::from_str(SAMPLE).unwrap();
    let md = minute_from_value(&v, "sh600519").unwrap();
    assert_eq!(md.points.len(), 3);
    assert_eq!(md.points[2].time, "09:32");
    assert_eq!(md.points[2].volume.as_deref(), Some("3320"));
    assert!(minute_from_value(&v, "sz000002").is_none());
}

#[test]
fn malformed_point_costs_only_itself() {
    let json = r#"{"data":{"x":{"data":{"data":["0930 1 2 3", 7, "0é30 1 2 3", "0931 x 2 3", "0932 4 5 6"]}}}}"#;
    let md = parse_minute(json, "x").unwrap();
    let times: Vec<&str> = md.points.iter().map(|p| p.time.as_str()).collect();
    assert_eq!(times, vec!["09:30", "09:32"]);
}

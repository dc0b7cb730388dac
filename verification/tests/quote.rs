use stock_ticker::quote::{
    build_url, decode_quotes, parse_line, parse_response, quote_request_url, Quote,
};

/// The change and the change in percent of a quote, rounded as the window shows them.
fn change_of(q: &Quote) -> (f64, f64) {
    let price: f64 = q.price.parse().unwrap();
    let prev_close: f64 = q.prev_close.parse().unwrap();
    let change = price - prev_close;
    let pct = if prev_close.abs() > f64::EPSILON {
        change / prev_close * 100.0
    } else {
        0.0
    };
    ((change * 1000.0).round() / 1000.0, (pct * 100.0).round() / 100.0)
}

#[test]
fn build_url_joins_codes() {
    let codes = vec!["sh000001".to_string(), "sz000002".to_string()];
    assert_eq!(build_url(&codes), "https://qt.gtimg.cn/q=sh000001,sz000002");
}

#[test]
fn parse_normal_line() {
    let sample = "v_sh600519=\"1~贵州茅台~600519~1185.56~1190.00~1199.00~660108~0~0~0.00\";";
    let quotes = parse_response(sample);
    assert_eq!(quotes.len(), 1);
    let q = &quotes[0];
    assert_eq!(q.code, "sh600519");
    assert_eq!(q.name, "贵州茅台");
    assert_eq!(q.price.parse::<f64>().unwrap(), 1185.56);
    assert_eq!(q.prev_close.parse::<f64>().unwrap(), 1190.00);
    let (change, change_pct) = change_of(q);
    assert!((change - (-4.44)).abs() < 1e-6, "change={}", change);
    assert!((change_pct - (-0.37)).abs() < 1e-6, "pct={}", change_pct);
}

#[test]
fn parse_multiple_lines() {
    let sample = "v_sh000001=\"1~上证指数~000001~4027.26~4120.28~4098.69\";\n\
                  v_sz399001=\"51~深证成指~399001~13000.00~13130.00~13100.00\";";
    let quotes = parse_response(sample);
    assert_eq!(quotes.len(), 2);
    assert_eq!(quotes[0].code, "sh000001");
    assert_eq!(quotes[1].code, "sz399001");
}

#[test]
fn skip_malformed_line() {
    let sample = "v_sh000001=\"1~上证指数~000001~4027.26~4120.28\";\n\
                  garbage line\n\
                  v_sz000002=\"51~万科A~000002~bad~10.00\";";
    let quotes = parse_response(sample);
    assert_eq!(quotes.len(), 1);
    assert_eq!(quotes[0].code, "sh000001");
}

#[test]
fn red_green_sign() {
    let up = "v_sh600000=\"1~浦发银行~600000~11.00~10.00~10.50\";";
    let q = &parse_response(up)[0];
    assert!(change_of(q).0 > 0.0);
}

#[test]
fn request_url_only_for_codes() {
    assert!(quote_request_url(&[]).is_none());
    let codes = vec!["sh600519".to_string()];
    assert_eq!(quote_request_url(&codes).unwrap(), "https://qt.gtimg.cn/q=sh600519");
}

#[test]
fn build_url_of_no_codes_is_the_endpoint() {
    assert_eq!(build_url(&[]), "https://qt.gtimg.cn/q=");
}

#[test]
fn line_fields_are_trimmed_and_checked() {
    let q = parse_line("  v_sz000002=\"51~ 万科A ~000002~ 7.5e0 ~+8.~x\";\r").unwrap();
    assert_eq!(q.code, "sz000002");
    assert_eq!(q.name, "万科A");
    assert_eq!(q.price, "7.5e0");
    assert_eq!(q.prev_close, "+8.");
}

#[test]
fn line_needs_prefix_quotes_and_name() {
    assert!(parse_line("sh600519=\"1~a~1~2~3\"").is_none());
    assert!(parse_line("v_sh600519=1~a~1~2~3").is_none());
    assert!(parse_line("v_sh600519=\"1~a~1~2~3").is_none());
    assert!(parse_line("v_sh600519=\"1~  ~1~2~3\"").is_none());
    assert!(parse_line("v_sh600519=\"1~a~1~2\"").is_none());
    assert!(parse_line("v_sh600519=\"1~a~1~2~.\"").is_none());
    assert!(parse_line("v_x=\"1~a~1~inf~NaN\"").is_some());
}

#[test]
fn empty_code_is_kept() {
    let q = parse_line("v_=\"1~a~1~2~3\"").unwrap();
    assert_eq!(q.code, "");
}

#[test]
fn malformed_line_costs_only_itself() {
    let good = "v_sh600519=\"1~贵州茅台~600519~1185.56~1190.00\";";
    let bad = "v_sz000002=\"51~万科A~000002~bad~10.00\";";
    let text = format!("{}\n{}\n{}", good, bad, good);
    let quotes = parse_response(&text);
    assert_eq!(quotes.len(), 2);
    assert_eq!(quotes[0].code, "sh600519");
    assert_eq!(quotes[1].code, "sh600519");
}

#[test]
fn decodes_gbk_reply() {
    let text = "v_sh600519=\"1~贵州茅台~600519~1185.56~1190.00\";\n";
    let (bytes, _, _) = encoding_rs::GBK.encode(text);
    assert_ne!(&bytes[..], text.as_bytes());
    let quotes = decode_quotes(&bytes);
    assert_eq!(quotes.len(), 1);
    assert_eq!(quotes[0].name, "贵州茅台");
}

#[test]
fn decodes_ascii_reply() {
    let quotes = decode_quotes(b"v_sh000001=\"1~SSE~000001~4027.26~4120.28\";");
    assert_eq!(quotes.len(), 1);
    assert_eq!(quotes[0].name, "SSE");
}

#[test]
fn quotes_compare_and_clone() {
    let q = parse_line("v_sh600000=\"1~浦发银行~600000~11.00~10.00\"").unwrap();
    assert_eq!(q.clone(), q);
    assert!(format!("{:?}", q).contains("sh600000"));
}

use wildfire::active_fire::parse_fire_csv;
use wildfire::cctv::{convert_cctv_url, merge_cctv_sources, parse_cctv_data, CctvData, CctvIndex};
use wildfire::danger_place::init_danger_place_sys;
use wildfire::feed::{forecast_retry_budget, merge_sources, next_delay, Feed};
use wildfire::fire_event::{convert_str_to_fire_status, fire_event_from_fields, parse_fire_events, FireStatus};
use wildfire::forecast::{parse_forecast_level, ForecastRun, ForecastStep};
use wildfire::number::{parse_decimal, parse_i32, Decimal};
use wildfire::text::{chars_of, extract_text_from_html, lines_of, split_on};

const FIRE_HEADER: &str = "latitude,longitude,brightness,scan,track,acq_date,acq_time,satellite,confidence,version,bright_t31,frp,daynight";

fn cs(s: &str) -> Vec<char> {
    s.chars().collect()
}

#[test]
fn decimal_reads_plain_numbers() {
    assert_eq!(parse_decimal(&cs("35.0")), Some(Decimal::new(350, 1)));
    assert_eq!(parse_decimal(&cs("-1.25")), Some(Decimal::new(-125, 2)));
    assert_eq!(parse_decimal(&cs("+7")), Some(Decimal::new(7, 0)));
    assert_eq!(parse_decimal(&cs("12.")), Some(Decimal::new(12, 0)));
    assert_eq!(parse_decimal(&cs(".5")), Some(Decimal::new(5, 1)));
}

#[test]
fn decimal_refuses_other_text() {
    assert_eq!(parse_decimal(&cs("")), None);
    assert_eq!(parse_decimal(&cs("-")), None);
    assert_eq!(parse_decimal(&cs(".")), None);
    assert_eq!(parse_decimal(&cs("1e5")), None);
    assert_eq!(parse_decimal(&cs("1.2.3")), None);
    assert_eq!(parse_decimal(&cs("1234567890123456789")), None);
}

#[test]
fn decimal_compares_exactly() {
    let a = Decimal::new(32477024, 6);
    let b = Decimal::new(32477025, 6);
    assert!(a.lt(&b));
    assert!(!b.lt(&a));
    assert!(!a.lt(&Decimal::new(32477024000, 9)));
}

#[test]
fn i32_parsing_stays_in_range() {
    assert_eq!(parse_i32(&cs("80")), Some(80));
    assert_eq!(parse_i32(&cs("-2147483648")), Some(i32::MIN));
    assert_eq!(parse_i32(&cs("2147483647")), Some(i32::MAX));
    assert_eq!(parse_i32(&cs("2147483648")), None);
    assert_eq!(parse_i32(&cs("7a")), None);
    assert_eq!(parse_i32(&cs("")), None);
}

#[test]
fn html_tags_are_removed() {
    assert_eq!(extract_text_from_html("<td class=\"x\">12.5</td>"), "12.5");
    assert_eq!(extract_text_from_html("a<b>b</b>c"), "abc");
    assert_eq!(extract_text_from_html("전국<br"), "전국");
    assert_eq!(extract_text_from_html(""), "");
}

#[test]
fn lines_and_fields() {
    let lines = lines_of(&cs("a,b\r\nc\n"));
    assert_eq!(lines, vec![cs("a,b"), cs("c")]);
    assert_eq!(split_on(&cs("a,,b"), ','), vec![cs("a"), cs(""), cs("b")]);
    assert_eq!(chars_of("가나"), vec!['가', '나']);
}

#[test]
fn active_fire_filter_keeps_confident_rows_in_the_box() {
    let csv = format!(
        "{}\n35.0,128.0,310.2,1,1,2020-01-02,0135,T,80,6,290,12.5,D\n10.0,128.0,310.2,1,1,2020-01-02,0135,T,80,6,290,12.5,D\n",
        FIRE_HEADER
    );
    let fires = parse_fire_csv(&csv);
    assert_eq!(fires.len(), 1);
    let f = fires[0];
    assert_eq!(f.latitude, Decimal::new(350, 1));
    assert_eq!(f.longitude, Decimal::new(1280, 1));
    assert_eq!(f.brightness, Decimal::new(3102, 1));
    assert_eq!(f.radiative_power, Decimal::new(125, 1));
    assert_eq!(f.time, 1577928900);
}

#[test]
fn active_fire_confidence_rules() {
    let csv = format!(
        "{}\n35.0,128.0,300,1,1,2020-01-02,135,T,high,6,290,1.0,D\n35.0,128.0,300,1,1,2020-01-02,0135,T,69,6,290,1.0,D\n35.0,128.0,300,1,1,2020-01-02,0135,T,low,6,290,1.0,D\n35.0,128.0,300\n",
        FIRE_HEADER
    );
    let fires = parse_fire_csv(&csv);
    assert_eq!(fires.len(), 1);
    assert_eq!(fires[0].time, 1577928900);
}

#[test]
fn active_fire_box_includes_its_edges() {
    let csv = format!(
        "{}\n32.477024,128.0,300,1,1,2020-01-02,0135,T,90,6,290,1.0,D\n32.477025,132.799567,300,1,1,2020-01-02,0135,T,90,6,290,1.0,D\n",
        FIRE_HEADER
    );
    let fires = parse_fire_csv(&csv);
    assert_eq!(fires.len(), 2);
    assert_eq!(fires[0].latitude, Decimal::new(32477024, 6));
    let outside = format!(
        "{}\n32.477023,128.0,300,1,1,2020-01-02,0135,T,90,6,290,1.0,D\n35.0,132.799569,300,1,1,2020-01-02,0135,T,90,6,290,1.0,D\n39.322145,132.799568,300,1,1,2020-01-02,0135,T,90,6,290,1.0,D\n",
        FIRE_HEADER
    );
    let edge = parse_fire_csv(&outside);
    assert_eq!(edge.len(), 1);
    assert_eq!(edge[0].longitude, Decimal::new(132799568, 6));
}

#[test]
fn active_fire_bad_date_drops_the_row() {
    let csv = format!("{}\n35.0,128.0,300,1,1,2020-13-02,0135,T,90,6,290,1.0,D\n", FIRE_HEADER);
    assert!(parse_fire_csv(&csv).is_empty());
    assert!(parse_fire_csv("").is_empty());
}

const CCTV_XML: &str = "<?xml version=\"1.0\"?><response><data><cctvurl>http://cam.example/a</cctvurl><coordy>37.5</coordy><coordx>127.0</coordx><cctvname>Gate A</cctvname></data><data><cctvurl>http://cam.example/b</cctvurl><coordy>10.0</coordy><coordx>127.0</coordx><cctvname>Far</cctvname></data><data><cctvurl>rtsp://cam.example/c</cctvurl><coordy>36.0</coordy><coordx>128.5</coordx><cctvname>Bridge &amp; road</cctvname></data></response>";

#[test]
fn cctv_records_are_read_and_filtered() {
    let v = parse_cctv_data(CCTV_XML).unwrap();
    assert_eq!(v.len(), 2);
    assert_eq!(v[0].url, "https://cam.example/a");
    assert_eq!(v[0].latitude, Decimal::new(375, 1));
    assert_eq!(v[0].longitude, Decimal::new(1270, 1));
    assert_eq!(v[0].name, "Gate A");
    assert_eq!(v[1].url, "rtsp://cam.example/c");
    assert_eq!(v[1].name, "Bridge & road");
}

#[test]
fn cctv_url_rewrites_first_http_only() {
    assert_eq!(convert_cctv_url("http://a/http://b"), "https://a/http://b");
    assert_eq!(convert_cctv_url("https://a"), "https://a");
    assert_eq!(convert_cctv_url(""), "");
}

#[test]
fn cctv_malformed_xml_is_an_error() {
    assert!(parse_cctv_data("<data><cctvurl>x</data>").is_err());
}

#[test]
fn cctv_partial_source_still_publishes() {
    let v = merge_cctv_sources(Ok(CCTV_XML.to_string()), Err("timed out".to_string()), true).unwrap();
    assert_eq!(v.len(), 2);
    assert!(merge_cctv_sources(Ok(CCTV_XML.to_string()), Err("timed out".to_string()), false).is_err());
    let both = merge_cctv_sources(Ok(CCTV_XML.to_string()), Ok(CCTV_XML.to_string()), true).unwrap();
    assert_eq!(both.len(), 4);
    assert_eq!(
        merge_cctv_sources(Err("a".to_string()), Err("b".to_string()), true).err(),
        Some("b".to_string())
    );
    assert!(merge_cctv_sources(Ok("<a></b>".to_string()), Ok(CCTV_XML.to_string()), true).is_err());
}

#[test]
fn cctv_index_replaces_by_name() {
    let mut index = CctvIndex::new();
    let v = parse_cctv_data(CCTV_XML).unwrap();
    index.update(&v);
    let mut moved = CctvData::new();
    moved.url = "https://cam.example/z".to_string();
    moved.name = "Gate A".to_string();
    moved.latitude = Decimal::new(30, 0);
    moved.longitude = Decimal::new(130, 0);
    index.update(&vec![moved]);
    let got = index.get("Gate A").unwrap();
    assert_eq!(got.url, "https://cam.example/z");
    assert!(index.get("Nowhere").is_none());
    assert!(index.get("Bridge & road").is_some());
}

#[test]
fn cctv_record_validity() {
    let mut c = CctvData::new();
    assert!(!c.is_valid());
    c.url = "u".to_string();
    c.name = "n".to_string();
    c.latitude = Decimal::new(20, 0);
    c.longitude = Decimal::new(120, 0);
    assert!(!c.is_valid());
    c.latitude = Decimal::new(201, 1);
    assert!(c.is_valid());
    c.clear();
    assert_eq!(c.url, "");
    assert_eq!(c.latitude, Decimal::new(0, 0));
}

#[test]
fn fire_status_codes() {
    assert_eq!(convert_str_to_fire_status("01"), FireStatus::Fire);
    assert_eq!(convert_str_to_fire_status("02"), FireStatus::Fire);
    assert_eq!(convert_str_to_fire_status("05"), FireStatus::Clear);
    assert_eq!(convert_str_to_fire_status("03"), FireStatus::Extinguished);
    assert_eq!(convert_str_to_fire_status(""), FireStatus::Extinguished);
    assert_eq!(FireStatus::Clear.code(), 2);
}

#[test]
fn fire_event_needs_points_in_coordinates() {
    let s = |x: &str| Some(x.to_string());
    let e = fire_event_from_fields(s("01"), s("37.5"), s("127.25"), s("addr"), s("20200102"), s("0135")).unwrap();
    assert_eq!(e.status, FireStatus::Fire);
    assert_eq!(e.latitude, Decimal::new(375, 1));
    assert_eq!(e.longitude, Decimal::new(12725, 2));
    assert!(fire_event_from_fields(s("01"), s("37"), s("127.25"), s("a"), s("d"), s("t")).is_none());
    assert!(fire_event_from_fields(s("01"), s("37.5"), s("x.y"), s("a"), s("d"), s("t")).is_none());
    assert!(fire_event_from_fields(None, s("37.5"), s("127.5"), s("a"), s("d"), s("t")).is_none());
}

#[test]
fn fire_events_from_json() {
    let doc = r#"[[{"frfrPrgrsStcd":"05","frfrSttmnLctnYcrd":"36.1","frfrSttmnLctnXcrd":"128.2","frfrSttmnAddr":"A","frfrSttmnDt":"20200101","frfrSttmnHms":"101010"},{"frfrPrgrsStcd":"01","frfrSttmnLctnYcrd":"36","frfrSttmnLctnXcrd":"128.2","frfrSttmnAddr":"B","frfrSttmnDt":"20200101","frfrSttmnHms":"101010"}]]"#;
    let v = parse_fire_events(doc).unwrap();
    assert_eq!(v.len(), 1);
    assert_eq!(v[0].status, FireStatus::Clear);
    assert_eq!(v[0].address, "A");
    assert!(parse_fire_events("{}").is_err());
    assert!(parse_fire_events("[]").is_err());
    assert!(parse_fire_events("not json").is_err());
}

const FORECAST_PAGE: &str = "<html><table><tr><td>지역</td><td>등급</td></tr><tr><td>>전국<</td><td><b>63.5</b></td></tr></table></html>";

#[test]
fn forecast_level_is_the_last_cell_of_the_table() {
    assert_eq!(parse_forecast_level(FORECAST_PAGE), Some(Decimal::new(635, 1)));
    assert_eq!(parse_forecast_level("<table><td>1</td></table>"), None);
}

#[test]
fn forecast_run_shares_its_retry_budget() {
    let mut run = ForecastRun::new(vec!["11".to_string(), "12".to_string()], 1);
    assert_eq!(run.first_step(), ForecastStep::Fetch(0));
    assert_eq!(run.current_code(), "11");
    assert_eq!(run.on_page(Err("down".into())), ForecastStep::Fetch(0));
    assert_eq!(run.on_page(Ok(FORECAST_PAGE.into())), ForecastStep::Fetch(1));
    assert_eq!(run.current_code(), "12");
    assert_eq!(run.on_page(Ok("garbage".into())), ForecastStep::Failed);
    let mut ok = ForecastRun::new(vec!["4311".to_string()], 0);
    assert_eq!(ok.on_page(Ok(FORECAST_PAGE.into())), ForecastStep::Done);
    let f = ok.into_forecasts();
    assert_eq!(f[0].code, "4311");
    assert_eq!(f[0].level, Decimal::new(635, 1));
    assert_eq!(ForecastRun::new(Vec::new(), 3).first_step(), ForecastStep::Done);
    assert_eq!(forecast_retry_budget(true), 16);
    assert_eq!(forecast_retry_budget(false), 8);
}

#[test]
fn feed_delays() {
    assert_eq!(next_delay(Feed::ActiveFire, true), 900);
    assert_eq!(next_delay(Feed::ActiveFire, false), 60);
    assert_eq!(next_delay(Feed::Cctv, true), 60);
    assert_eq!(next_delay(Feed::FireEvent, true), 180);
    assert_eq!(next_delay(Feed::Forecast, true), 1800);
    assert_eq!(next_delay(Feed::Wind, true), 300);
    assert_eq!(next_delay(Feed::Wind, false), 60);
    assert_eq!(next_delay(Feed::ReportMap, false), 2);
    assert_eq!(next_delay(Feed::ShelterUpdate, true), 3600);
}

#[test]
fn either_source_is_enough() {
    let both: Result<Vec<i32>, String> = merge_sources(Ok(vec![1]), Ok(vec![2, 3]));
    assert_eq!(both, Ok(vec![1, 2, 3]));
    assert_eq!(merge_sources::<i32>(Err("m".into()), Ok(vec![2])), Ok(vec![2]));
    assert_eq!(merge_sources::<i32>(Ok(vec![1]), Err("v".into())), Ok(vec![1]));
    assert_eq!(merge_sources::<i32>(Err("m".into()), Err("v".into())), Err("m".to_string()));
}

#[test]
fn danger_places_from_csv() {
    let csv = "addr,lat,lon,t,name\nSeoul,37.5,127.0,3,Mountain\nBusan,x,129.0,y,Beach\nshort,row\n";
    let places = init_danger_place_sys(csv);
    assert_eq!(places.len(), 2);
    assert_eq!(places[0].addr, "Seoul");
    assert_eq!(places[0].latitude, Decimal::new(375, 1));
    assert_eq!(places[0].kind, 3);
    assert_eq!(places[1].latitude, Decimal::new(0, 0));
    assert_eq!(places[1].kind, -1);
    assert_eq!(places[1].name, "Beach");
}

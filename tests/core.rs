use wildfire::captcha::{channel_index, cookie_name, verify_and_remove_captcha, CaptchaAnswer, CaptchaStore, MAX_MAP_SIZE};
use wildfire::number::Decimal;
use wildfire::report::{
    is_white_space,
    check_admin, decimal_text, hash_password, may_delete_report, new_report, parse_image_upload,
    public_image_path, reports_within, upload_file_name, AdminCredentials, BadReportForm,
    BadReportFormError, ReportCache, ReportForm, ReportFormError, ReportMapCache, ReportSummary,
    UploadError,
};
use wildfire::scheduler::{Task, TaskSchedulerBuilder};
use wildfire::shelter::{shelter_update_job, Shelter, ShelterTable, UserShelterForm, UserShelterFormError};
use wildfire::station_table::{parse_station_table, StationTableError};
use wildfire::util::{calculate_hash, generate_rand_id};
use wildfire::wind::{
    plan_wind_run, WindPlan,
    coverage_mask, encode_wind_image, pack_pixels, parse_station_list, station_readings, update_wind_map,
    WindImages,
};

fn cs(s: &str) -> Vec<char> {
    s.chars().collect()
}

#[test]
fn task_runs_at_most_once_at_a_time() {
    let mut t = Task::new("job", 100, 1000);
    assert!(!t.ready(1099));
    assert!(t.ready(1100));
    assert!(t.try_dispatch(1100));
    assert!(!t.ready(5000));
    assert!(!t.try_dispatch(5000));
    t.finish_job(5000, 60);
    assert!(!t.ready(5059));
    assert!(t.try_dispatch(5060));
    assert_eq!(*t.get_job(), "job");
}

#[test]
fn builder_settings() {
    let mut b: TaskSchedulerBuilder<u8> = TaskSchedulerBuilder::new().n_workers(2).period_resolution(100);
    b.add_task(Task::new(1, 0, 0));
    b.add_task(Task::new(2, 0, 0));
    let (tasks, workers, tick) = b.into_parts();
    assert_eq!(tasks.len(), 2);
    assert_eq!(*tasks[1].get_job(), 2);
    assert_eq!(workers, 2);
    assert_eq!(tick, 100);
    let (_, w, r) = TaskSchedulerBuilder::<u8>::new().into_parts();
    assert_eq!((w, r), (4, 1000));
}

#[test]
fn captcha_verifies_once() {
    let mut store = CaptchaStore::new();
    let id = store.issue("ab12".to_string(), 10).unwrap();
    assert_eq!(id.len(), 32);
    assert!(id.chars().all(|c| c.is_ascii_alphanumeric()));
    assert!(verify_and_remove_captcha(&mut store, Some(id.clone()), "ab12"));
    assert!(!verify_and_remove_captcha(&mut store, Some(id), "ab12"));
    assert!(!verify_and_remove_captcha(&mut store, None, "ab12"));
}

#[test]
fn captcha_wrong_answer_still_consumes() {
    let mut store = CaptchaStore::new();
    assert!(store.insert("k".to_string(), "right".to_string(), 0));
    assert!(!store.insert("k".to_string(), "other".to_string(), 0));
    assert!(!store.verify_and_remove(Some("k".to_string()), "wrong"));
    assert_eq!(store.len(), 0);
    assert!(!store.verify_and_remove(Some("k".to_string()), "right"));
}

#[test]
fn captcha_eviction_fires_past_the_cap() {
    let mut store = CaptchaStore::new();
    for i in 0..MAX_MAP_SIZE {
        assert!(store.insert(format!("old{}", i), "a".to_string(), 0));
    }
    assert_eq!(store.len(), 512);
    assert!(store.insert("new".to_string(), "b".to_string(), 301));
    assert_eq!(store.len(), 1);
    assert!(store.verify_and_remove(Some("new".to_string()), "b"));
}

#[test]
fn captcha_eviction_keeps_valid_answers() {
    let mut store = CaptchaStore::new();
    for i in 0..MAX_MAP_SIZE {
        assert!(store.insert(format!("id{}", i), "a".to_string(), 0));
    }
    assert!(store.insert("one-more".to_string(), "b".to_string(), 300));
    assert_eq!(store.len(), 513);
}

#[test]
fn captcha_channels_and_cookies() {
    assert_eq!(channel_index(3), 3);
    assert_eq!(channel_index(9), 0);
    assert_eq!(cookie_name(1), "captcha_1");
    assert_eq!(cookie_name(4), "captcha_4");
    assert_eq!(cookie_name(7), "captcha_0");
    let a = CaptchaAnswer::new("x".to_string(), 100);
    assert!(a.is_valid(400));
    assert!(!a.is_valid(401));
}

#[test]
fn random_ids_are_alphanumeric() {
    let id = generate_rand_id(32);
    assert_eq!(id.chars().count(), 32);
    assert!(id.chars().all(|c| c.is_ascii_alphanumeric()));
    assert_eq!(generate_rand_id(0), "");
}

#[test]
fn hashing_is_deterministic() {
    assert_eq!(calculate_hash("pass"), calculate_hash("pass"));
    assert_ne!(calculate_hash("pass"), calculate_hash("pasS"));
    let salted = format!("{}{}", "pass", "^^ NeuroWhAI 42 5749");
    assert_eq!(hash_password("pass"), calculate_hash(&salted));
}

#[test]
fn decimal_text_of_integers() {
    assert_eq!(decimal_text(0), "0");
    assert_eq!(decimal_text(7), "7");
    assert_eq!(decimal_text(1234567890), "1234567890");
    assert_eq!(decimal_text(u64::MAX), u64::MAX.to_string());
}

fn form(lvl: i32) -> ReportForm {
    ReportForm {
        captcha: "c".into(),
        user_id: "abc".into(),
        user_pwd: "pass".into(),
        latitude: Decimal::new(375, 1),
        longitude: Decimal::new(1270, 1),
        lvl,
        description: String::new(),
        img_key: String::new(),
    }
}

#[test]
fn report_level_bounds() {
    assert_eq!(form(4).verify_error(), None);
    assert_eq!(form(0).verify_error(), None);
    assert_eq!(form(5).verify_error(), Some(ReportFormError::InvalidLevel));
    assert_eq!(form(-1).verify_error(), Some(ReportFormError::InvalidLevel));
}

#[test]
fn report_form_rules_in_order() {
    let mut f = form(2);
    f.user_id = "a b".into();
    assert_eq!(f.verify_error(), Some(ReportFormError::IdHasSpace));
    f.user_id = "a".into();
    assert_eq!(f.verify_error(), Some(ReportFormError::IdTooShort));
    f.user_id = "가".repeat(25);
    assert_eq!(f.verify_error(), Some(ReportFormError::IdTooLong));
    f.user_id = "가".repeat(24);
    assert_eq!(f.verify_error(), None);
    f.user_pwd = "123".into();
    assert_eq!(f.verify_error(), Some(ReportFormError::PasswordTooShort));
    f.user_pwd = "1234".into();
    f.description = "x".repeat(65537);
    assert_eq!(f.verify_error(), Some(ReportFormError::DescriptionTooLong));
    f.description = "x".repeat(65536);
    assert_eq!(f.verify_error(), None);
    f.description = "가".repeat(21846);
    assert_eq!(f.verify_error(), Some(ReportFormError::DescriptionTooLong));
    f.description = String::new();
    f.img_key = "../etc".into();
    assert_eq!(f.verify_error(), Some(ReportFormError::InvalidImageKey));
    f.img_key = "k".repeat(257);
    assert_eq!(f.verify_error(), Some(ReportFormError::InvalidImageKey));
    assert_eq!(ReportFormError::InvalidLevel.message(), "Invalid level");
}

#[test]
fn bad_report_reason_limit() {
    let mut f = BadReportForm { captcha: "c".into(), id: 1, reason: "x".repeat(65536) };
    assert_eq!(f.verify_error(), None);
    f.reason.push('y');
    assert_eq!(f.verify_error(), Some(BadReportFormError::ReasonTooLong));
}

#[test]
fn report_built_from_form() {
    let r = new_report(&form(2), public_image_path("k.png"), 1600000000);
    assert_eq!(r.user_id, "abc");
    assert_eq!(r.user_pwd, hash_password("pass").to_string());
    assert_eq!(r.img_path, "images/k.png");
    assert_eq!(r.created_time, 1600000000);
    assert_eq!(r.lvl, 2);
}

#[test]
fn delete_authorisation() {
    let admin = AdminCredentials::new("root".to_string(), "secret");
    let stored = hash_password("pass").to_string();
    assert!(may_delete_report("abc", &stored, "abc", "pass", &admin));
    assert!(!may_delete_report("abc", &stored, "abc", "wrong", &admin));
    assert!(!may_delete_report("abc", &stored, "xyz", "pass", &admin));
    assert!(may_delete_report("abc", &stored, "root", "secret", &admin));
    assert!(check_admin(&admin, "root", "secret"));
    assert!(!check_admin(&admin, "root", "Secret"));
}

fn summary(id: i32, created: u64) -> ReportSummary {
    ReportSummary {
        id,
        user_id: "u".into(),
        latitude: Decimal::new(0, 0),
        longitude: Decimal::new(0, 0),
        created_time: created,
        lvl: 1,
    }
}

#[test]
fn report_map_keeps_two_days() {
    let now = 1_000_000;
    let kept = reports_within(vec![summary(1, now - 172800), summary(2, now - 172799), summary(3, now + 5)], now);
    let ids: Vec<i32> = kept.iter().map(|r| r.id).collect();
    assert_eq!(ids, vec![2, 3]);
}

#[test]
fn report_cache_clears_when_full() {
    let mut c = ReportCache::new();
    for i in 0..512 {
        c.insert(i, format!("r{}", i));
    }
    assert_eq!(c.get(7), Some("r7".to_string()));
    c.insert(999, "last".into());
    assert_eq!(c.get(7), None);
    assert_eq!(c.get(999), Some("last".to_string()));
    c.remove(999);
    assert_eq!(c.get(999), None);
}

#[test]
fn report_map_cache_expires() {
    let mut m = ReportMapCache::new(0);
    assert!(!m.is_valid(0));
    m.update("{}".into(), 100);
    assert!(m.is_valid(110));
    assert!(!m.is_valid(111));
    assert_eq!(m.get_data(), "{}");
}

#[test]
fn upload_reads_data_uri() {
    let u = parse_image_upload("data:image/png;base64,aGVsbG8=").unwrap();
    assert_eq!(u.ext, "png");
    assert_eq!(u.bytes, b"hello".to_vec());
}

#[test]
fn upload_errors() {
    assert!(matches!(parse_image_upload("data:image/gif;base64,aGVsbG8="), Err(UploadError::InvalidExtension)));
    assert!(matches!(parse_image_upload("nouri"), Err(UploadError::InvalidUri)));
    assert!(matches!(parse_image_upload("data:image/png;base64"), Err(UploadError::InvalidUri)));
    assert!(matches!(parse_image_upload("data:image/jpg;base64,@@@"), Err(UploadError::Decode(_))));
    let big = format!("data:image/png;base64,{}", "A".repeat(11184808));
    assert!(matches!(parse_image_upload(&big), Err(UploadError::TooLarge)));
    assert_eq!(UploadError::InvalidUri.message(), "Invalid uri");
}

#[test]
fn upload_names() {
    let n = upload_file_name("jpeg");
    assert_eq!(n.len(), 37);
    assert!(n.ends_with(".jpeg"));
    assert!(n[..32].chars().all(|c| c.is_ascii_alphanumeric()));
}

fn shelter(id: i32) -> Shelter {
    Shelter::new(id, "S".into(), Decimal::new(375, 1), Decimal::new(127, 0), "info".into())
}

#[test]
fn shelter_evaluation_and_decay() {
    let mut table = ShelterTable::new();
    table.insert(shelter(7));
    table.update_cache(7, "{\"id\":7}".into());
    assert_eq!(table.evaluate(7, 1), Some((1, 0)));
    assert_eq!(table.evaluate(7, 0), Some((1, 0)));
    assert_eq!(table.evaluate(8, 1), None);
    let s = &table.shelters()[0];
    assert!(!s.cached && !s.synced);
    assert_eq!(table.stale_ids(), vec![7]);
    assert_eq!(table.map_entries(), vec![(7, Decimal::new(375, 1), Decimal::new(127, 0), 1, 0)]);
    let (updates, delay) = shelter_update_job(&mut table);
    assert_eq!(updates, vec![(7, 1, 0)]);
    assert_eq!(delay, 3600);
    let s = &table.shelters()[0];
    assert_eq!((s.recent_good, s.recent_bad), (0, 0));
    assert!(!s.synced);
    let (updates, _) = shelter_update_job(&mut table);
    assert_eq!(updates, vec![(7, 0, 0)]);
    assert!(table.shelters()[0].synced);
    assert_eq!(table.evaluate(7, -3), Some((0, 1)));
}

#[test]
fn admin_removes_a_shelter() {
    let mut table = ShelterTable::new();
    table.insert(shelter(3));
    table.update_cache(3, "{}".into());
    assert_eq!(table.get_json(3), Some("{}".to_string()));
    assert!(table.remove(3));
    assert_eq!(table.get_json(3), None);
    assert!(!table.remove(3));
}

#[test]
fn user_shelter_form_rules() {
    let mut f = UserShelterForm {
        captcha: "c".into(),
        name: "a".into(),
        latitude: Decimal::new(0, 0),
        longitude: Decimal::new(0, 0),
        info: String::new(),
        evidence: String::new(),
    };
    assert_eq!(f.verify_error(), Some(UserShelterFormError::NameTooShort));
    f.name = "가".repeat(11);
    assert_eq!(f.verify_error(), Some(UserShelterFormError::NameTooLong));
    f.name = "가".repeat(10);
    f.info = "i".repeat(21);
    assert_eq!(f.verify_error(), Some(UserShelterFormError::InfoTooLong));
    f.info = "i".repeat(20);
    assert_eq!(f.verify_error(), None);
}

const STATION_PAGE: &str = "<html><table class=\"x\"><tr><td>head</td></tr><script>javascript</script><tr><td><a>108</a></td><td>1</td><td>2</td><td>3</td><td>4</td><td>5</td><td>6</td><td>7</td><td>8</td><td>9</td><td>10</td><td>11</td><td>12</td><td>13</td><td>225.0</td><td>15</td><td>4.2</td></tr><tr><td>short</td></tr></table>";

#[test]
fn station_table_rows() {
    let h = cs(STATION_PAGE);
    let rows = parse_station_table(&h).unwrap();
    assert_eq!(rows.len(), 1);
    assert_eq!(rows[0].len(), 17);
    assert_eq!(rows[0][0], cs("108"));
    assert_eq!(rows[0][14], cs("225.0"));
    assert_eq!(parse_station_table(&cs("<p>nothing</p>")).err(), Some(StationTableError::TableNotFound));
    let unterminated = cs("<table><tr><td>javascript</td></table>");
    assert_eq!(parse_station_table(&unterminated).err(), Some(StationTableError::UnterminatedRow));
}

#[test]
fn stations_and_readings() {
    let list = "code,name,end,a,b,lat,lon\n108,Seoul,,x,y,37.57,126.97\n109,Closed,2001,x,y,37.0,127.0\n110,NoPos,,x,y,,127.0\n108,Seoul2,,x,y,37.6,127.0\n";
    let stations = parse_station_list(list);
    assert_eq!(stations.len(), 2);
    let rows = parse_station_table(&cs(STATION_PAGE)).unwrap();
    let readings = station_readings(&stations, &rows);
    assert_eq!(readings.len(), 1);
    assert_eq!(readings[0].latitude, Decimal::new(376, 1));
    assert_eq!(readings[0].direction, Decimal::new(2250, 1));
    assert_eq!(readings[0].speed, Decimal::new(42, 1));
    assert!(station_readings(&Vec::new(), &rows).is_empty());
}

#[test]
fn coverage_is_chebyshev_radius_32() {
    let mask = coverage_mask(&[(0, 0)], 40, 40);
    assert!(mask[32][32]);
    assert!(!mask[33][0]);
    assert!(!mask[0][33]);
    let far = coverage_mask(&[(100, -32)], 70, 2);
    assert!(far[0][68]);
    assert!(!far[0][67]);
    assert!(!far[1][68]);
    let none = coverage_mask(&[], 3, 2);
    assert!(none.iter().all(|row| row.iter().all(|c| !c)));
}

#[test]
fn pixels_are_packed_top_row_first() {
    let red = vec![vec![1, 2], vec![3, 4]];
    let green = vec![vec![5, 6], vec![7, 8]];
    let mask = vec![vec![true, false], vec![false, true]];
    let bytes = pack_pixels(&red, &green, &mask, 2, 2);
    assert_eq!(bytes, vec![3, 7, 0, 0, 4, 8, 0, 255, 1, 5, 0, 255, 2, 6, 0, 0]);
    let png = encode_wind_image(&red, &green, &mask, 2, 2).unwrap();
    assert_eq!(&png[1..4], b"PNG");
    assert!(png.len() > 8);
}

#[test]
fn wind_images_are_kept_an_hour() {
    let mut images = WindImages::new();
    let mut meta = String::new();
    update_wind_map(&mut images, &mut meta, 0, "{\"id\":0}".into(), vec![1], 0);
    assert_eq!(images.get(0), Some(vec![1]));
    update_wind_map(&mut images, &mut meta, 3599, "{\"id\":3599}".into(), vec![2], 3599);
    assert_eq!(images.get(0), Some(vec![1]));
    update_wind_map(&mut images, &mut meta, 3600, "{\"id\":3600}".into(), vec![3], 3600);
    assert_eq!(images.get(0), Some(vec![1]));
    update_wind_map(&mut images, &mut meta, 3600, "{\"id\":3600}".into(), vec![3], 3601);
    assert_eq!(images.get(0), None);
    assert_eq!(images.get(3599), Some(vec![2]));
    assert_eq!(meta, "{\"id\":3600}");
    update_wind_map(&mut images, &mut meta, 3600, "m".into(), vec![4], 3600);
    assert_eq!(images.get(3600), Some(vec![4]));
    assert_eq!(images.get(12345), None);
}

#[test]
fn white_space_matches_unicode() {
    for c in (0u32..=0x10FFFF).filter_map(char::from_u32) {
        assert_eq!(is_white_space(c), c.is_whitespace(), "{:?}", c);
    }
    assert!(!is_white_space('a'));
    assert!(is_white_space('\u{3000}'));
}

#[test]
fn wind_run_falls_back_without_stations() {
    assert_eq!(plan_wind_run(&Vec::new()), WindPlan::Fallback);
    let stations = parse_station_list("code,name,end,a,b,lat,lon\n108,Seoul,,x,y,37.57,126.97\n");
    let rows = parse_station_table(&cs(STATION_PAGE)).unwrap();
    assert_eq!(plan_wind_run(&station_readings(&stations, &rows)), WindPlan::Raster);
}

use std::str::FromStr;

use tilemap::application::AppOptions;
use tilemap::render::RenderOptions;
use tilemap::service::RenderServerOptions;
use tilemap::tilegen::TileGeneratorOptions;
use tilemap::tilegen::PathMode;
use tilemap::raster::Filter;

#[test]
fn render_options_defaults_and_setters() {
    let mut o = RenderOptions::default();
    assert!(o.gamma_table.is_none());
    assert_eq!(o.env_light, 15);
    o.set_env_light(9);
    assert_eq!(o.env_light, 9);
    o.set_env_light(200);
    assert_eq!(o.env_light, 15);
    o.set_gamma_table(vec![0u8; 256]);
    assert!(o.gamma_table.is_some());
}

#[test]
fn app_options_setters() {
    let mut o = AppOptions::default();
    assert_eq!(o.thread_num, 1);
    o.set_thread_num(4);
    o.set_input_folder("in");
    o.set_output_folder("out");
    o.render_option_mut().set_env_light(3);
    assert_eq!(o.thread_num, 4);
    assert_eq!(o.input_folder, "in");
    assert_eq!(o.output_folder, "out");
    assert_eq!(o.render_options.env_light, 3);
}

#[test]
fn server_options_defaults_and_setters() {
    let mut o = RenderServerOptions::default();
    assert_eq!(o.host, "0.0.0.0:8080");
    assert!(o.workers >= 1);
    assert_eq!(o.max_tasks, 128);
    assert!(!o.compress);
    assert!(o.tls.is_none());
    o.set_host("127.0.0.1:9000");
    o.set_workers(2);
    o.set_max_tasks(5);
    o.set_compress(true);
    o.set_tls(String::from("cert.pem"), String::from("key.pem"));
    assert_eq!(o.host, "127.0.0.1:9000");
    assert_eq!(o.workers, 2);
    assert_eq!(o.max_tasks, 5);
    assert!(o.compress);
    assert!(o.tls.is_some());
    assert!(o.admits(4));
    assert!(!o.admits(5));
}

#[test]
fn generator_options_filter_names() {
    let mode = match PathMode::from_str("layer+:0") {
        Ok(m) => m,
        Err(_) => panic!("mode parses"),
    };
    let mut o = TileGeneratorOptions::new(String::from("i"), String::from("o"), mode);
    assert!(matches!(o.filter, Filter::Nearest));
    o.set_filter(b"lanczos3");
    assert!(matches!(o.filter, Filter::Lanczos3));
    o.set_filter(b"sharpen");
    assert!(matches!(o.filter, Filter::Lanczos3));
    o.set_filter(b"triangle");
    assert!(matches!(o.filter, Filter::Triangle));
    o.set_multi_thread_mode(true);
    o.set_check_exist(true);
    assert!(o.multi_thread_mode);
    assert!(o.check);
}


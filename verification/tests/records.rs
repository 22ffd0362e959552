use portfolio::app::{dialog_response, remove_result_response, update_result_response, Response};
use portfolio::image::{base64_from_vec, file_type, picked_image, Image};
use portfolio::link::{Link, LinkIcon};
use portfolio::project::{BsonValue, Project};
use portfolio::response::{ImgbbData, ImgbbResponse};
use portfolio::state::State;

#[test]
fn file_type_known_extensions() {
    assert_eq!(file_type("jpg"), "jpeg");
    assert_eq!(file_type("jpeg"), "jpeg");
    assert_eq!(file_type("png"), "png");
    assert_eq!(file_type("gif"), "");
    assert_eq!(file_type(""), "");
}

#[test]
fn base64_data_url_short() {
    let url = base64_from_vec(vec![0u8, 1u8, 2u8], "pic.png");
    assert_eq!(url, "data:image/png;base64,AAEC");
}

#[test]
fn base64_data_url_uses_last_extension() {
    let url = base64_from_vec(vec![255u8], "/home/user/archive.tar/shot.v2.jpg");
    assert_eq!(url, "data:image/jpeg;base64,/w==");
}

#[test]
fn base64_data_url_strips_line_breaks() {
    // 60 zero bytes encode to 80 characters; the MIME encoding breaks the
    // line after 76, and the data URL must not keep that break.
    let url = base64_from_vec(vec![0u8; 60], "x.png");
    let expected: String =
        format!("data:image/png;base64,{}", "A".repeat(80));
    assert_eq!(url, expected);
}

#[test]
fn base64_data_url_unknown_extension() {
    let url = base64_from_vec(vec![1u8], "odd.bmp");
    assert_eq!(url, "data:image/;base64,AQ==");
}

#[test]
fn picked_image_fields() {
    let img = picked_image(
        "pic.png".to_string(),
        "/tmp/pic.png".to_string(),
        vec![0u8, 1u8, 2u8],
    );
    assert_eq!(img.name, "pic.png");
    assert_eq!(img.path, "/tmp/pic.png");
    assert_eq!(img.data, "data:image/png;base64,AAEC");
    assert_eq!(img.alt, "");
    assert_eq!(img.is_upload, false);
}

#[test]
fn image_default_and_new() {
    let d = Image::default();
    assert_eq!(d.data, "/proxy-image.jpg");
    assert_eq!(d.alt, "No image for project");
    assert_eq!(d.name, "");
    assert_eq!(d.path, "");
    assert_eq!(d.is_upload, false);

    let n = Image::new();
    assert_eq!(n.data, "");
    assert_eq!(n.alt, "");
    assert_eq!(n.name, "");
    assert_eq!(n.path, "");
    assert_eq!(n.is_upload, false);
}

#[test]
fn image_debug_string_shows_data_and_alt() {
    let mut img = Image::new();
    img.data = "url".to_string();
    img.alt = "a label".to_string();
    assert_eq!(img.debug_string(), "data: url, alt: a label");
}

#[test]
fn image_equality_is_data_and_alt() {
    let mut a = Image::new();
    let mut b = Image::new();
    a.data = "d".to_string();
    b.data = "d".to_string();
    a.alt = "alt".to_string();
    b.alt = "alt".to_string();
    a.name = "left".to_string();
    b.name = "right".to_string();
    assert!(a == b);
    b.alt = "other".to_string();
    assert!(a != b);
}

#[test]
fn project_new_defaults() {
    let p = Project::new(3);
    assert_eq!(p.id, 3);
    assert_eq!(p.name, "New Project");
    assert_eq!(p.description, "");
    assert_eq!(p.images.len(), 0);
    assert_eq!(p.links.len(), 0);
}

#[test]
fn project_equality_is_id_and_name() {
    let mut a = Project::new(1);
    let mut b = Project::new(1);
    a.description = "something".to_string();
    b.description = "else".to_string();
    assert!(a == b);
    b.name = "renamed".to_string();
    assert!(a != b);
}

fn text_of(b: &BsonValue) -> &str {
    match b {
        BsonValue::Text(s) => s,
        _ => panic!("expected a text value"),
    }
}

#[test]
fn project_doc_layout() {
    let mut p = Project::new(1);
    p.name = "n".to_string();
    p.description = "d".to_string();
    let mut img = Image::new();
    img.name = "i".to_string();
    img.data = "D".to_string();
    p.images.push(img);
    p.links.push(Link {
        url: "u".to_string(),
        icon: LinkIcon::FontAwesome("f".to_string()),
    });

    let doc = p.doc();
    assert_eq!(doc.len(), 4);

    assert_eq!(doc[0].0, "name");
    assert_eq!(text_of(&doc[0].1), "n");
    assert_eq!(doc[1].0, "description");
    assert_eq!(text_of(&doc[1].1), "d");

    assert_eq!(doc[2].0, "images");
    match &doc[2].1 {
        BsonValue::Array(items) => {
            assert_eq!(items.len(), 1);
            match &items[0] {
                BsonValue::Table(pairs) => {
                    assert_eq!(pairs.len(), 2);
                    assert_eq!(pairs[0].0, "name");
                    assert_eq!(text_of(&pairs[0].1), "i");
                    assert_eq!(pairs[1].0, "data");
                    assert_eq!(text_of(&pairs[1].1), "D");
                }
                _ => panic!("expected a table"),
            }
        }
        _ => panic!("expected an array"),
    }

    assert_eq!(doc[3].0, "links");
    match &doc[3].1 {
        BsonValue::Array(items) => {
            assert_eq!(items.len(), 1);
            match &items[0] {
                BsonValue::Table(pairs) => {
                    assert_eq!(pairs.len(), 2);
                    assert_eq!(pairs[0].0, "url");
                    assert_eq!(text_of(&pairs[0].1), "u");
                    assert_eq!(pairs[1].0, "icon");
                    match &pairs[1].1 {
                        BsonValue::Table(icon) => {
                            assert_eq!(icon.len(), 1);
                            assert_eq!(icon[0].0, "FontAwesome");
                            assert_eq!(text_of(&icon[0].1), "f");
                        }
                        _ => panic!("expected an icon table"),
                    }
                }
                _ => panic!("expected a table"),
            }
        }
        _ => panic!("expected an array"),
    }
}

#[test]
fn project_doc_image_icon_variant() {
    let mut p = Project::new(2);
    p.links.push(Link {
        url: "u2".to_string(),
        icon: LinkIcon::Image("http://e/x.png".to_string()),
    });
    let doc = p.doc();
    match &doc[3].1 {
        BsonValue::Array(items) => match &items[0] {
            BsonValue::Table(pairs) => match &pairs[1].1 {
                BsonValue::Table(icon) => {
                    assert_eq!(icon[0].0, "Image");
                    assert_eq!(text_of(&icon[0].1), "http://e/x.png");
                }
                _ => panic!("expected an icon table"),
            },
            _ => panic!("expected a table"),
        },
        _ => panic!("expected an array"),
    }
}

#[test]
fn link_editing_on_project() {
    let mut p = Project::new(8);
    p.add_image_link();
    p.add_font_awesome_link();
    assert_eq!(p.links.len(), 2);
    match &p.links[0].icon {
        LinkIcon::Image(s) => assert_eq!(s, ""),
        _ => panic!("expected an image icon"),
    }
    assert_eq!(p.links[0].url, "");
    match &p.links[1].icon {
        LinkIcon::FontAwesome(s) => assert_eq!(s, ""),
        _ => panic!("expected a FontAwesome icon"),
    }

    p.remove_link(0);
    assert_eq!(p.links.len(), 1);
    assert!(matches!(p.links[0].icon, LinkIcon::FontAwesome(_)));
}

#[test]
fn image_removal_on_project() {
    let mut p = Project::new(9);
    let mut first = Image::new();
    first.name = "first.png".to_string();
    let mut second = Image::new();
    second.name = "second.png".to_string();
    p.images.push(first);
    p.images.push(second);

    p.remove_image(0);
    assert_eq!(p.images.len(), 1);
    assert_eq!(p.images[0].name, "second.png");
}

#[test]
fn state_default_is_unloaded() {
    assert_eq!(State::default(), State::Unloaded);
}

#[test]
fn dialog_response_maps_pick_and_cancel() {
    let mut img = Image::new();
    img.name = "p.png".to_string();
    match dialog_response(Some(img)) {
        Response::Image(i) => assert_eq!(i.name, "p.png"),
        _ => panic!("expected an image response"),
    }
    assert!(matches!(dialog_response(None), Response::Nothing));
}

#[test]
fn remove_result_maps_success_and_failure() {
    assert!(matches!(
        remove_result_response(6, None),
        Response::RemoveProject(6)
    ));
    match remove_result_response(6, Some("db down".to_string())) {
        Response::Error(e) => assert_eq!(e, "db down"),
        _ => panic!("expected an error response"),
    }
}

#[test]
fn update_result_maps_success_and_failure() {
    assert!(matches!(update_result_response(None), Response::Nothing));
    match update_result_response(Some("conflict".to_string())) {
        Response::Error(e) => assert_eq!(e, "conflict"),
        _ => panic!("expected an error response"),
    }
}

#[test]
fn imgbb_response_shape() {
    let r = ImgbbResponse {
        data: ImgbbData {
            title: "t".to_string(),
            url: "https://e/i.png".to_string(),
            size: 123,
        },
        success: true,
        status: 200,
    };
    assert!(r.success);
    assert_eq!(r.status, 200);
    assert_eq!(r.data.size, 123);
    assert_eq!(r.data.url, "https://e/i.png");
}

use open_otk_browser::css::error::ErrorKind;
use open_otk_browser::{resolve_render, RenderError, PAGE_HEIGHT, PAGE_WIDTH};

#[test]
fn a_page_is_painted_row_after_row() {
    let pixels = resolve_render(
        "<div class='a'><div class='b'></div></div>".to_string(),
        "* { display: block; } .a { background: #ff0000; padding: 2px; width: 10px; }
         .b { background-color: #00ff00; height: 3px; margin-left: 1px; }"
            .to_string(),
    )
    .unwrap();
    assert_eq!(pixels.len(), (PAGE_WIDTH * PAGE_HEIGHT) as usize);
    let at = |x: usize, y: usize| pixels[y * PAGE_WIDTH as usize + x];
    // the padding of the outer box is not painted: only content areas are
    assert_eq!(at(0, 0), 0xFF000000);
    assert_eq!(at(2, 2), 0xFFFF0000);
    assert_eq!(at(3, 2), 0xFF00FF00);
    assert_eq!(at(11, 4), 0xFF00FF00);
    assert_eq!(at(12, 4), 0xFF000000);
    assert_eq!(at(3, 5), 0xFF000000);
    assert_eq!(at(799, 599), 0xFF000000);
}

#[test]
fn a_page_with_a_bad_sheet_or_a_hidden_root_is_not_painted() {
    match resolve_render("<p></p>".to_string(), "p { width: 1em; }".to_string()) {
        Err(RenderError::Syntax(e)) => assert_eq!(e.kind, ErrorKind::UnknownUnit),
        other => panic!("unexpected: {:?}", other.map(|p| p.len())),
    }
    assert_eq!(
        resolve_render("<p></p>".to_string(), "p { display: none; }".to_string()),
        Err(RenderError::HiddenRoot)
    );
}

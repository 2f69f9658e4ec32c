use atomic_core::single_page::{
    MetaTags, Preview, PreviewResponse, escape_html, generate_nonce, nonce_of,
    page_subject, render_page,
};

// A description that tries to close the attribute and add a script tag.
#[test]
fn evil_meta_tags() {
    let html = MetaTags {
        description: "\"<script>alert('evil')</script>\"".to_string(),
        ..Default::default()
    }
    .to_string();
    println!("{}", html);
    assert!(!html.contains("<script>"));
}

#[test]
fn escaping() {
    assert_eq!(
        escape_html("a<b>&'\"/c"),
        "a&amp;lt;b&amp;gt;&amp;&#x27;&quot;&#x2F;c"
    );
}

#[test]
fn tags_of_a_resource() {
    let preview = Preview {
        description: None,
        name: Some("N".to_string()),
        download_url: None,
        json: Some("{}".to_string()),
    };
    let tags = MetaTags::from_resource(preview);
    let html = tags.to_string();
    assert_eq!(
        html,
        "<meta name=\"description\" content=\"Open this resource in your browser to view its contents.\">
<meta property=\"og:title\" content=\"N\">
<meta property=\"og:description\" content=\"Open this resource in your browser to view its contents.\">
<meta property=\"og:image\" content=\"/default_social_preview.jpg\">
<meta property=\"twitter:card\" content=\"summary_large_image\">
<meta property=\"twitter:title\" content=\"N\">
<meta property=\"twitter:description\" content=\"Open this resource in your browser to view its contents.\">
<meta property=\"twitter:image\" content=\"/default_social_preview.jpg\">
<meta property=\"json-ad-initial\" content=\"e30=\">"
    );
}

#[test]
fn the_page() {
    let preview = Preview { description: None, name: None, download_url: None, json: None };
    let page = render_page(
        "<html><!-- { inject_html_head } --> ATOMICSERVER_NONCE <!-- { inject_script } --></html>",
        "abc",
        Some(PreviewResponse::ResourceWithReferenced(preview, Some("{}".to_string()))),
        "run()",
    );
    assert!(page.body.contains("json-ad-initial\" content=\"e30=\""));
    assert!(page.body.contains(" abc <script nonce=\"abc\">run()</script></html>"));
    assert_eq!(page.content_security_policy, "script-src 'nonce-abc'; worker-src 'self'");
    assert_eq!(page.cache_control, "no-store, no-cache, must-revalidate, private");
    assert_eq!(page.content_type, "text/html");
    let page = render_page("<!-- { inject_html_head } -->", "n", None, "");
    assert!(page.body.contains("Sign in to view this resource"));
    assert_eq!(page_subject("http://s", "a/b"), "http://s/a/b");
}

#[test]
fn nonces() {
    let a = generate_nonce().ok().unwrap();
    let b = generate_nonce().ok().unwrap();
    assert_eq!(a.len(), 43);
    assert_ne!(a, b);
    assert!(a.chars().all(|c| c.is_ascii_alphanumeric() || c == '-' || c == '_'));
    let drawn: Vec<u8> = [251, 255].repeat(16);
    assert_eq!(
        nonce_of(Some(drawn)).ok().unwrap(),
        "-__7__v_-__7__v_-__7__v_-__7__v_-__7__v_-_8"
    );
    assert_eq!(nonce_of(None).err().unwrap().message, "Failed to generate nonce");
}

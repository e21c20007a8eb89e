use emmett::content::extract_path_url_for_post;
use emmett::post::{FrontMatter, Post, RawFrontMatter};

fn get_front_matter() -> FrontMatter {
    let raw = RawFrontMatter {
        title: "Mes dernières découvertes".to_owned(),
        slug: "mes-dernières-decouvertes-1".to_owned(),
        date: "2019-09-04 17:20:00+01:00".to_owned(),
        status: None,
        category: None,
        tags: None,
        updated_at: None,
        toc: None,
    };
    FrontMatter::from_raw(raw).expect("Couldn't derserialize")
}

fn get_post() -> Post {
    let front_matter = get_front_matter();

    Post::new(
        front_matter,
        Some("Excerpt".to_owned()),
        "Content test".to_owned(),
        "content/fr/2019-09-04-mes-dernieres-decouvertes-1.md".to_owned(),
        "fr/2019-09-04-mes-dernieres-decouvertes-1/".to_owned(),
        "fr/2019-09-04-mes-dernieres-decouvertes-1/".to_owned(),
        vec!["fr/".to_owned(), "fr/content".to_owned()],
        vec!["content".to_owned(), "fr".to_owned()],
    )
}

#[test]
fn test_extract_path_url() {
    let post = get_post();

    let input_directory = "content";
    let blog_prefix_path = "blog";
    let path = "content/fr/2019-09-04-mes-dernieres-decouvertes-1.md";
    assert_eq!(
        extract_path_url_for_post(
            &Some(post.front_matter),
            &path,
            input_directory,
            blog_prefix_path,
            false
        ),
        "blog/fr/mes-dernières-decouvertes-1/"
    );
}

#[test]
fn test_extract_path_url_encoded() {
    let post = get_post();

    let input_directory = "content";
    let blog_prefix_path = "blog";
    let path = "content/fr/2019-09-04-mes-dernieres-decouvertes-1.md";
    assert_eq!(
        extract_path_url_for_post(
            &Some(post.front_matter),
            &path,
            input_directory,
            blog_prefix_path,
            true
        ),
        "blog/fr/mes-derni%C3%A8res-decouvertes-1/"
    );
}

#[test]
fn test_extract_path_url_with_input_trailing_slash() {
    let post = get_post();

    let input_directory = "content/";
    let blog_prefix_path = "blog";
    let path = "content/fr/2019-09-04-mes-dernieres-decouvertes-1.md";
    assert_eq!(
        extract_path_url_for_post(
            &Some(post.front_matter),
            &path,
            input_directory,
            blog_prefix_path,
            false
        ),
        "blog/fr/mes-dernières-decouvertes-1/"
    );
}

#[test]
fn test_extract_path_url_with_input_slash() {
    let post = get_post();

    let blog_prefix_path = "blog";
    let input_directory = "content/";
    let path = "/content/fr/2019-09-04-mes-dernieres-decouvertes-1.md";
    assert_eq!(
        extract_path_url_for_post(
            &Some(post.front_matter),
            &path,
            input_directory,
            blog_prefix_path,
            false
        ),
        "blog/fr/mes-dernières-decouvertes-1/"
    );
}

#[test]
fn url_without_front_matter_is_the_directory() {
    assert_eq!(
        extract_path_url_for_post(&None, "content/fr/a.md", "content", "blog", false),
        "blog/fr/"
    );
}

#[test]
fn url_with_absolute_slug_ignores_the_directory() {
    let mut fm = get_front_matter();
    fm.slug = "/about".to_owned();
    assert_eq!(
        extract_path_url_for_post(&Some(fm), "content/fr/a.md", "content", "blog", false),
        "/about/"
    );
}

#[test]
fn url_keeps_the_path_as_written() {
    let mut fm = get_front_matter();
    fm.slug = "a//b".to_owned();
    assert_eq!(
        extract_path_url_for_post(&Some(fm), "content/fr/x.md", "content", "blog", false),
        "blog/fr/a//b/"
    );
    let fm = get_front_matter();
    assert_eq!(
        extract_path_url_for_post(&Some(fm), "content//fr/./tech/x.md", "content", "blog", false),
        "blog/fr/./tech/mes-dernières-decouvertes-1/"
    );
}

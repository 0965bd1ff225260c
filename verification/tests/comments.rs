use easl::parser::passes::comment::comment_pass;

#[test]
fn source_without_comments_stays_as_it_is() {
    assert_eq!(comment_pass("x = 1\ny = 2\n"), "x = 1\ny = 2\n");
    assert_eq!(comment_pass(""), "");
}

#[test]
fn comment_is_dropped_up_to_the_line_end() {
    assert_eq!(comment_pass("x = 1 # one\ny = 2\n"), "x = 1 \ny = 2\n");
    assert_eq!(comment_pass("# only\n"), "\n");
    assert_eq!(comment_pass("a # no line end"), "a ");
    assert_eq!(comment_pass("# one # two\n#\nz"), "\n\nz");
}

#[test]
fn hash_inside_a_string_is_kept() {
    assert_eq!(comment_pass("s = \"a # b\" # c\n"), "s = \"a # b\" \n");
    assert_eq!(comment_pass("s = \"open # rest\n# x"), "s = \"open # rest\n# x");
}

#[test]
fn quote_inside_a_comment_opens_no_string() {
    assert_eq!(comment_pass("# \"\nx # y\n"), "\nx \n");
}

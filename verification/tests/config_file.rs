use shoehorn::config::{parse, Config};

fn good(contents: &str) -> Config {
    parse(contents).unwrap()
}

fn fault(contents: &str) -> String {
    parse(contents).unwrap_err()
}

#[test]
fn plain_file_is_read_back() {
    let c = good("listen_addr=127.0.0.1:8080\nsocks_addr=127.0.0.1:1080\nlog_path=/tmp/shoehorn.log\n");
    assert_eq!(c.listen_addr, "127.0.0.1:8080");
    assert_eq!(c.socks_addr, "127.0.0.1:1080");
    assert_eq!(c.log_path, Some("/tmp/shoehorn.log".to_string()));
}

#[test]
fn log_path_can_be_left_out() {
    let c = good("listen_addr=a\nsocks_addr=b");
    assert_eq!(c.log_path, None);
    assert_eq!((c.listen_addr.as_str(), c.socks_addr.as_str()), ("a", "b"));
}

#[test]
fn comments_blank_lines_and_white_space_do_not_matter() {
    let c = good("# a comment\r\n\r\n  listen_addr =  a b \r\n\t#=\n socks_addr\t= x=y \n\n");
    assert_eq!(c.listen_addr, "a b");
    assert_eq!(c.socks_addr, "x=y");
}

#[test]
fn comments_change_no_more_than_line_numbers() {
    let plain = good("listen_addr=a\nsocks_addr=b\n");
    let commented = good("# x\n\nlisten_addr=a\n#\n # y\nsocks_addr=b\n\n");
    assert_eq!(plain.listen_addr, commented.listen_addr);
    assert_eq!(plain.socks_addr, commented.socks_addr);
    assert_eq!(plain.log_path, commented.log_path);
    assert_eq!(fault("listen_addr=a\nx"), "line 2 is missing '='");
    assert_eq!(fault("#\n\nlisten_addr=a\n#\nx"), "line 5 is missing '='");
    assert_eq!(fault("listen_addr=a"), fault("#\nlisten_addr=a\n#"));
}

#[test]
fn last_value_wins() {
    let c = good("listen_addr=1\nsocks_addr=2\nlisten_addr=3\nlog_path=p\nlog_path=q\n");
    assert_eq!(c.listen_addr, "3");
    assert_eq!(c.log_path, Some("q".to_string()));
}

#[test]
fn faults_name_the_line() {
    assert_eq!(fault("listen_addr"), "line 1 is missing '='");
    assert_eq!(
        fault("\n# c\nlisten_addr = \n"),
        "line 3 has an empty value for listen_addr"
    );
    assert_eq!(fault("port = 5"), "line 1 has unknown key port");
    assert_eq!(fault("=x"), "line 1 has unknown key ");
    assert_eq!(fault("Listen_addr=x"), "line 1 has unknown key Listen_addr");
    assert_eq!(fault("\n\n\n\n\n\n\n\n\nx"), "line 10 is missing '='");
}

#[test]
fn first_fault_is_reported() {
    assert_eq!(fault("a=\nb"), "line 1 has an empty value for a");
    assert_eq!(fault("b\na="), "line 1 is missing '='");
}

#[test]
fn addresses_are_required() {
    assert_eq!(fault(""), "listen_addr is required");
    assert_eq!(fault("socks_addr=b"), "listen_addr is required");
    assert_eq!(fault("listen_addr=b"), "socks_addr is required");
}

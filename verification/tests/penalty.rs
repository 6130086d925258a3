use prefix_dictionary::compute_korean_space_penalty;

#[test]
fn particles_have_the_highest_penalty() {
    for tag in ["JC", "JKB", "JKC", "JKG", "JKO", "JKQ", "JKS", "JKV", "JX"] {
        assert_eq!(compute_korean_space_penalty(tag), 6000, "{}", tag);
    }
}

#[test]
fn endings_copula_and_suffixes_have_a_lower_penalty() {
    for tag in ["EC", "EF", "EP", "ETM", "ETN", "VCP", "XSA", "XSN", "XSV"] {
        assert_eq!(compute_korean_space_penalty(tag), 3000, "{}", tag);
    }
}

#[test]
fn other_tags_have_no_penalty() {
    for tag in ["", "NNG", "VCN", "J", "JCX", "jc", "XSB", "XR", "名詞", " JC"] {
        assert_eq!(compute_korean_space_penalty(tag), 0, "{}", tag);
    }
}

#[test]
fn compound_tag_counts_as_its_first_segment() {
    assert_eq!(compute_korean_space_penalty("JC+VCP"), 6000);
    assert_eq!(compute_korean_space_penalty("VCP+JC"), 3000);
    assert_eq!(compute_korean_space_penalty("NNG+JC"), 0);
    assert_eq!(compute_korean_space_penalty("+JC"), 0);
    assert_eq!(compute_korean_space_penalty("JX+"), 6000);
    assert_eq!(compute_korean_space_penalty("EP+EF+JC"), 3000);
}

use supersigil_lsp::is_in_supersigil_fence;


// -- is_in_supersigil_fence --

#[test]
fn inside_supersigil_fence() {
    let content =
        "# Title\n```supersigil-xml\n<Criterion id=\"c1\">\nbody\n</Criterion>\n```\nafter";
    // Line 0: # Title
    // Line 1: ```supersigil-xml  (opening delimiter)
    // Line 2: <Criterion ...>
    // Line 3: body
    // Line 4: </Criterion>
    // Line 5: ```  (closing delimiter)
    // Line 6: after
    assert!(is_in_supersigil_fence(content, 2));
    assert!(is_in_supersigil_fence(content, 3));
    assert!(is_in_supersigil_fence(content, 4));
}

#[test]
fn outside_supersigil_fence() {
    let content = "before\n```supersigil-xml\ninside\n```\nafter";
    // Line 0: before
    // Line 4: after
    assert!(!is_in_supersigil_fence(content, 0));
    assert!(!is_in_supersigil_fence(content, 4));
}

#[test]
fn on_opening_delimiter() {
    let content = "```supersigil-xml\ninside\n```";
    assert!(!is_in_supersigil_fence(content, 0));
}

#[test]
fn on_closing_delimiter() {
    let content = "```supersigil-xml\ninside\n```";
    assert!(!is_in_supersigil_fence(content, 2));
}

#[test]
fn multiple_fences() {
    let content = "```supersigil-xml\nfirst\n```\nbetween\n```supersigil-xml\nsecond\n```";
    // Line 0: ```supersigil-xml
    // Line 1: first
    // Line 2: ```
    // Line 3: between
    // Line 4: ```supersigil-xml
    // Line 5: second
    // Line 6: ```
    assert!(is_in_supersigil_fence(content, 1));
    assert!(!is_in_supersigil_fence(content, 3));
    assert!(is_in_supersigil_fence(content, 5));
}

#[test]
fn no_fences_at_all() {
    let content = "just plain\nmarkdown\ntext";
    assert!(!is_in_supersigil_fence(content, 0));
    assert!(!is_in_supersigil_fence(content, 1));
    assert!(!is_in_supersigil_fence(content, 2));
}

#[test]
fn fence_with_four_backticks() {
    let content = "````supersigil-xml\ninside\n````";
    assert!(!is_in_supersigil_fence(content, 0));
    assert!(is_in_supersigil_fence(content, 1));
    assert!(!is_in_supersigil_fence(content, 2));
}

#[test]
fn non_supersigil_fence() {
    let content = "```json\n{\"key\": \"value\"}\n```";
    // Line 1 is inside a json fence, not a supersigil-xml fence.
    assert!(!is_in_supersigil_fence(content, 0));
    assert!(!is_in_supersigil_fence(content, 1));
    assert!(!is_in_supersigil_fence(content, 2));
}

#[test]
fn non_supersigil_fence_does_not_confuse_subsequent_fence() {
    let content = "```json\n{}\n```\n```supersigil-xml\n<Task id=\"t1\" />\n```";
    // Line 0: ```json
    // Line 1: {}
    // Line 2: ```
    // Line 3: ```supersigil-xml
    // Line 4: <Task ...>
    // Line 5: ```
    assert!(!is_in_supersigil_fence(content, 1));
    assert!(is_in_supersigil_fence(content, 4));
}

#[test]
fn between_fences_is_outside() {
    let content = "```supersigil-xml\na\n```\nmiddle\n```supersigil-xml\nb\n```";
    assert!(!is_in_supersigil_fence(content, 3));
}

#[test]
fn nested_fence_four_backtick_outer() {
    // 4-backtick outer fence containing a 3-backtick inner block
    let content = "````supersigil-xml\nsome content\n```\nstill inside\n````";
    // Line 0: ````supersigil-xml (opening, 4 backticks)
    // Line 1: some content
    // Line 2: ``` (only 3 backticks — not enough to close)
    // Line 3: still inside
    // Line 4: ```` (closing, 4 backticks)
    assert!(is_in_supersigil_fence(content, 1));
    assert!(is_in_supersigil_fence(content, 2));
    assert!(is_in_supersigil_fence(content, 3));
    assert!(!is_in_supersigil_fence(content, 4));
}

#[test]
fn fence_with_trailing_content_in_info_string() {
    let content = "```supersigil-xml some-extra-info\ninside\n```";
    assert!(is_in_supersigil_fence(content, 1));
}

// -- HTML comment handling (Task 5) --

#[test]
fn commented_fence_does_not_confuse_scanner() {
    // <!-- ```supersigil-xml   (line 0)
    // <Implements refs="" />   (line 1)
    // ``` -->                  (line 2)
    //                          (line 3)
    // ```supersigil-xml        (line 4)
    // <Task id="t1" />         (line 5)
    // ```                      (line 6)
    let content = "<!-- ```supersigil-xml\n<Implements refs=\"\" />\n``` -->\n\n```supersigil-xml\n<Task id=\"t1\" />\n```";
    assert!(is_in_supersigil_fence(content, 5)); // inside real fence
    assert!(!is_in_supersigil_fence(content, 1)); // inside comment
    assert!(!is_in_supersigil_fence(content, 2)); // inside comment
}

#[test]
fn multiline_comment_with_fence_inside() {
    // <!-- Subtasks:           (line 0)
    //                          (line 1)
    // ```supersigil-xml        (line 2)
    // <Task id="t1" ... />     (line 3)
    // ```                      (line 4)
    // -->                      (line 5)
    //                          (line 6)
    // ```supersigil-xml        (line 7)
    // <Task id="real" />       (line 8)
    // ```                      (line 9)
    let content = "<!-- Subtasks:\n\n```supersigil-xml\n<Task id=\"t1\" status=\"draft\" />\n```\n-->\n\n```supersigil-xml\n<Task id=\"real\" />\n```";
    assert!(!is_in_supersigil_fence(content, 3)); // inside comment
    assert!(is_in_supersigil_fence(content, 8)); // inside real fence
}

// -- Tilde fence support (Task 6) --

#[test]
fn tilde_fence_recognized() {
    // ~~~supersigil-xml  (line 0)
    // <Task id="t1" />  (line 1)
    // ~~~               (line 2)
    let content = "~~~supersigil-xml\n<Task id=\"t1\" />\n~~~";
    assert!(is_in_supersigil_fence(content, 1));
    assert!(!is_in_supersigil_fence(content, 0));
    assert!(!is_in_supersigil_fence(content, 2));
}

#[test]
fn tilde_fence_not_closed_by_backticks() {
    // ~~~supersigil-xml  (line 0)
    // <Task />           (line 1)
    // ```                (line 2) — backticks don't close a tilde fence
    // still inside       (line 3)
    // ~~~                (line 4)
    let content = "~~~supersigil-xml\n<Task />\n```\nstill inside\n~~~";
    assert!(is_in_supersigil_fence(content, 1));
    assert!(is_in_supersigil_fence(content, 3)); // ``` doesn't close ~~~
    assert!(!is_in_supersigil_fence(content, 4)); // not inside after ~~~
}


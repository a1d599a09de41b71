use replaytrim::auth::compute_auth;

#[test]
fn compute_auth_matches_protocol_example() {
    let answer = compute_auth(
        "supersecretpassword",
        "lM1GncleQOaCu9lT1yeUZhFYnqhsLLP1G5lAGo3ixaI=",
        "+IxH4CnCiqpX1rM9scsNynZzbOe4KhDeYcTNS3PDaeY=",
    );
    assert_eq!(answer, "1Ct943GAT+6YQUUX47Ia/ncufilbe6+oD6lY+5kaCu4=");
}

#[test]
fn compute_auth_of_empty_inputs() {
    let answer = compute_auth("", "", "");
    assert_eq!(answer, "XEB0z23rR/W2r5xf4+C70OQrlZb+iKxU1ca275h+DyA=");
    assert_eq!(answer.len(), 44);
}

#[test]
fn compute_auth_depends_on_every_input() {
    let base = compute_auth("pw", "salt", "challenge");
    assert_ne!(base, compute_auth("pw2", "salt", "challenge"));
    assert_ne!(base, compute_auth("pw", "salt2", "challenge"));
    assert_ne!(base, compute_auth("pw", "salt", "challenge2"));
    assert_eq!(base.len(), 44);
}

use tencent_scf::{Context, EnvContext};

fn env() -> EnvContext {
    EnvContext {
        namespace: "default".to_string(),
        function_name: "hello".to_string(),
        function_version: "$LATEST".to_string(),
        region: "ap-guangzhou".to_string(),
        appid: "1250000000".to_string(),
        uin: "100000000001".to_string(),
    }
}

#[test]
fn context_new_takes_headers_and_environment() {
    let ctx = Context::new(128, 3000, "req-1".to_string(), &env());
    assert_eq!(ctx.memory_limit_in_mb, 128);
    assert_eq!(ctx.time_limit_in_ms, 3000);
    assert_eq!(ctx.request_id, "req-1");
    assert_eq!(ctx.namespace, "default");
    assert_eq!(ctx.function_name, "hello");
    assert_eq!(ctx.function_version, "$LATEST");
    assert_eq!(ctx.region, "ap-guangzhou");
    assert_eq!(ctx.appid, "1250000000");
    assert_eq!(ctx.uin, "100000000001");
}

//! Names, labels and help texts of the exported metrics.

use vstd::prelude::*;

verus! {

pub const METRIC_PARTITION_LATEST_OFFSET: &'static str = "kafka_partition_latest_offset";
pub const METRIC_PARTITION_EARLIEST_OFFSET: &'static str = "kafka_partition_earliest_offset";

pub const METRIC_GROUP_OFFSET: &'static str = "kafka_consumergroup_group_offset";
pub const METRIC_GROUP_LAG: &'static str = "kafka_consumergroup_group_lag";
pub const METRIC_GROUP_LAG_SECONDS: &'static str = "kafka_consumergroup_group_lag_seconds";
pub const METRIC_GROUP_MESSAGES_LOST: &'static str = "kafka_consumergroup_group_messages_lost";
pub const METRIC_GROUP_RETENTION_MARGIN: &'static str = "kafka_consumergroup_group_retention_margin";
pub const METRIC_GROUP_LAG_RETENTION_RATIO: &'static str = "kafka_consumergroup_group_lag_retention_ratio";

pub const METRIC_GROUP_MAX_LAG: &'static str = "kafka_consumergroup_group_max_lag";
pub const METRIC_GROUP_MAX_LAG_SECONDS: &'static str = "kafka_consumergroup_group_max_lag_seconds";
pub const METRIC_GROUP_SUM_LAG: &'static str = "kafka_consumergroup_group_sum_lag";
pub const METRIC_GROUP_STATE: &'static str = "kafka_consumergroup_group_state";
pub const METRIC_GROUP_TOPIC_SUM_LAG: &'static str = "kafka_consumergroup_group_topic_sum_lag";

pub const METRIC_POLL_TIME_MS: &'static str = "kafka_consumergroup_poll_time_ms";
pub const METRIC_SCRAPE_DURATION_SECONDS: &'static str = "kafka_lag_exporter_scrape_duration_seconds";
pub const METRIC_UP: &'static str = "kafka_lag_exporter_up";
pub const METRIC_LAST_UPDATE_TIMESTAMP: &'static str = "kafka_lag_exporter_last_update_timestamp_seconds";
pub const METRIC_COMPACTION_DETECTED: &'static str = "kafka_lag_exporter_compaction_detected_total";
pub const METRIC_DATA_LOSS_PARTITIONS: &'static str = "kafka_lag_exporter_data_loss_partitions_total";

pub const LABEL_CLUSTER_NAME: &'static str = "cluster_name";
pub const LABEL_GROUP: &'static str = "group";
pub const LABEL_TOPIC: &'static str = "topic";
pub const LABEL_PARTITION: &'static str = "partition";
pub const LABEL_MEMBER_HOST: &'static str = "member_host";
pub const LABEL_CONSUMER_ID: &'static str = "consumer_id";
pub const LABEL_CLIENT_ID: &'static str = "client_id";
pub const LABEL_COMPACTION_DETECTED: &'static str = "compaction_detected";
pub const LABEL_DATA_LOSS_DETECTED: &'static str = "data_loss_detected";

pub const HELP_PARTITION_LATEST_OFFSET: &'static str = "Latest (high watermark) offset for a partition";
pub const HELP_PARTITION_EARLIEST_OFFSET: &'static str = "Earliest (low watermark) offset for a partition";
pub const HELP_GROUP_OFFSET: &'static str = "Last committed offset for a consumer group partition";
pub const HELP_GROUP_LAG: &'static str = "Offset lag (high_watermark - committed) for a consumer group partition";
pub const HELP_GROUP_LAG_SECONDS: &'static str = "Time lag in seconds for a consumer group partition";
pub const HELP_GROUP_MESSAGES_LOST: &'static str = "Number of messages deleted by retention before consumer processed them";
pub const HELP_GROUP_RETENTION_MARGIN: &'static str = "Offset distance between consumer position and deletion boundary";
pub const HELP_GROUP_LAG_RETENTION_RATIO: &'static str = "Percentage of retention window occupied by consumer lag";
pub const HELP_GROUP_MAX_LAG: &'static str = "Maximum offset lag across all partitions for a consumer group";
pub const HELP_GROUP_MAX_LAG_SECONDS: &'static str = "Maximum time lag in seconds across all partitions for a consumer group";
pub const HELP_GROUP_SUM_LAG: &'static str = "Sum of offset lag across all partitions for a consumer group";
pub const HELP_GROUP_STATE: &'static str = "Consumer group state (0=Unknown, 1=PreparingRebalance, 2=CompletingRebalance, 3=Stable, 4=Dead, 5=Empty, 6=Assigning, 7=Reconciling)";
pub const HELP_GROUP_TOPIC_SUM_LAG: &'static str = "Sum of offset lag per topic for a consumer group";
pub const HELP_POLL_TIME_MS: &'static str = "Time taken to poll all offsets in milliseconds";
pub const HELP_SCRAPE_DURATION_SECONDS: &'static str = "Duration of metrics collection in seconds";
pub const HELP_UP: &'static str = "1 if the exporter is healthy, 0 otherwise";
pub const HELP_LAST_UPDATE_TIMESTAMP: &'static str = "Unix timestamp of last successful metrics collection";
pub const HELP_COMPACTION_DETECTED: &'static str = "Number of partitions where log compaction was detected (time lag may be understated)";
pub const HELP_DATA_LOSS_PARTITIONS: &'static str = "Number of partitions where data loss occurred";

} // verus!

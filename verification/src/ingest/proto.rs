//! The OTLP messages, as `opentelemetry-proto` defines them.
//!
//! Verus reads the fields of these types from the crate itself. Only what the
//! library never looks into is closed to it.

use vstd::prelude::*;

use opentelemetry_proto::tonic::collector::logs::v1::ExportLogsServiceRequest;
use opentelemetry_proto::tonic::collector::metrics::v1::ExportMetricsServiceRequest;
use opentelemetry_proto::tonic::collector::trace::v1::ExportTraceServiceRequest;
use opentelemetry_proto::tonic::common::v1::any_value::Value as AnyKind;
use opentelemetry_proto::tonic::common::v1::{AnyValue, ArrayValue, InstrumentationScope, KeyValue, KeyValueList};
use opentelemetry_proto::tonic::logs::v1::{LogRecord as OtlpLog, ResourceLogs, ScopeLogs};
use opentelemetry_proto::tonic::metrics::v1::exemplar::Value as ExemplarKind;
use opentelemetry_proto::tonic::metrics::v1::metric::Data;
use opentelemetry_proto::tonic::metrics::v1::number_data_point::Value as NumberKind;
use opentelemetry_proto::tonic::metrics::v1::{
    Exemplar, ExponentialHistogram, ExponentialHistogramDataPoint, Gauge, Histogram, HistogramDataPoint, Metric,
    NumberDataPoint, ResourceMetrics, ScopeMetrics, Sum, Summary, SummaryDataPoint,
};
use opentelemetry_proto::tonic::resource::v1::Resource;
use opentelemetry_proto::tonic::trace::v1::span::{Event, Link};
use opentelemetry_proto::tonic::trace::v1::{ResourceSpans, ScopeSpans, Span, Status};

verus! {

/// `opentelemetry_proto::tonic::common::v1::AnyValue`, with its fields.
#[verifier::external_type_specification]
pub struct ExAnyValue(AnyValue);

/// `opentelemetry_proto::tonic::common::v1::any_value::Value`, with its variants.
#[verifier::external_type_specification]
pub struct ExAnyKind(AnyKind);

/// `opentelemetry_proto::tonic::common::v1::ArrayValue`, never looked into.
#[verifier::external_type_specification]
#[verifier::external_body]
pub struct ExArrayValue(ArrayValue);

/// `opentelemetry_proto::tonic::common::v1::KeyValueList`, never looked into.
#[verifier::external_type_specification]
#[verifier::external_body]
pub struct ExKeyValueList(KeyValueList);

/// `opentelemetry_proto::tonic::common::v1::KeyValue`, with its fields.
#[verifier::external_type_specification]
pub struct ExKeyValue(KeyValue);

/// `opentelemetry_proto::tonic::common::v1::InstrumentationScope`, with its fields.
#[verifier::external_type_specification]
pub struct ExInstrumentationScope(InstrumentationScope);

/// `opentelemetry_proto::tonic::resource::v1::Resource`, with its fields.
#[verifier::external_type_specification]
pub struct ExResource(Resource);

/// `opentelemetry_proto::tonic::collector::metrics::v1::ExportMetricsServiceRequest`, with its fields.
#[verifier::external_type_specification]
pub struct ExExportMetricsServiceRequest(ExportMetricsServiceRequest);

/// `opentelemetry_proto::tonic::metrics::v1::ResourceMetrics`, with its fields.
#[verifier::external_type_specification]
pub struct ExResourceMetrics(ResourceMetrics);

/// `opentelemetry_proto::tonic::metrics::v1::ScopeMetrics`, with its fields.
#[verifier::external_type_specification]
pub struct ExScopeMetrics(ScopeMetrics);

/// `opentelemetry_proto::tonic::metrics::v1::Metric`, with its fields.
#[verifier::external_type_specification]
pub struct ExMetric(Metric);

/// `opentelemetry_proto::tonic::metrics::v1::metric::Data`, with its variants.
#[verifier::external_type_specification]
pub struct ExData(Data);

/// `opentelemetry_proto::tonic::metrics::v1::Gauge`, with its fields.
#[verifier::external_type_specification]
pub struct ExGauge(Gauge);

/// `opentelemetry_proto::tonic::metrics::v1::Sum`, with its fields.
#[verifier::external_type_specification]
pub struct ExSum(Sum);

/// `opentelemetry_proto::tonic::metrics::v1::Histogram`, with its fields.
#[verifier::external_type_specification]
pub struct ExHistogram(Histogram);

/// `opentelemetry_proto::tonic::metrics::v1::ExponentialHistogram`, with its fields.
#[verifier::external_type_specification]
pub struct ExExponentialHistogram(ExponentialHistogram);

/// `opentelemetry_proto::tonic::metrics::v1::ExponentialHistogramDataPoint`, never looked into.
#[verifier::external_type_specification]
#[verifier::external_body]
pub struct ExExponentialHistogramDataPoint(ExponentialHistogramDataPoint);

/// `opentelemetry_proto::tonic::metrics::v1::Summary`, with its fields.
#[verifier::external_type_specification]
pub struct ExSummary(Summary);

/// `opentelemetry_proto::tonic::metrics::v1::SummaryDataPoint`, never looked into.
#[verifier::external_type_specification]
#[verifier::external_body]
pub struct ExSummaryDataPoint(SummaryDataPoint);

/// `opentelemetry_proto::tonic::metrics::v1::NumberDataPoint`, with its fields.
#[verifier::external_type_specification]
pub struct ExNumberDataPoint(NumberDataPoint);

/// `opentelemetry_proto::tonic::metrics::v1::number_data_point::Value`, with its variants.
#[verifier::external_type_specification]
pub struct ExNumberKind(NumberKind);

/// `opentelemetry_proto::tonic::metrics::v1::HistogramDataPoint`, with its fields.
#[verifier::external_type_specification]
pub struct ExHistogramDataPoint(HistogramDataPoint);

/// `opentelemetry_proto::tonic::metrics::v1::Exemplar`, with its fields.
#[verifier::external_type_specification]
pub struct ExExemplar(Exemplar);

/// `opentelemetry_proto::tonic::metrics::v1::exemplar::Value`, with its variants.
#[verifier::external_type_specification]
pub struct ExExemplarKind(ExemplarKind);

/// `opentelemetry_proto::tonic::collector::logs::v1::ExportLogsServiceRequest`, with its fields.
#[verifier::external_type_specification]
pub struct ExExportLogsServiceRequest(ExportLogsServiceRequest);

/// `opentelemetry_proto::tonic::logs::v1::ResourceLogs`, with its fields.
#[verifier::external_type_specification]
pub struct ExResourceLogs(ResourceLogs);

/// `opentelemetry_proto::tonic::logs::v1::ScopeLogs`, with its fields.
#[verifier::external_type_specification]
pub struct ExScopeLogs(ScopeLogs);

/// `opentelemetry_proto::tonic::logs::v1::LogRecord`, with its fields.
#[verifier::external_type_specification]
pub struct ExOtlpLog(OtlpLog);

/// `opentelemetry_proto::tonic::collector::trace::v1::ExportTraceServiceRequest`, with its fields.
#[verifier::external_type_specification]
pub struct ExExportTraceServiceRequest(ExportTraceServiceRequest);

/// `opentelemetry_proto::tonic::trace::v1::ResourceSpans`, with its fields.
#[verifier::external_type_specification]
pub struct ExResourceSpans(ResourceSpans);

/// `opentelemetry_proto::tonic::trace::v1::ScopeSpans`, with its fields.
#[verifier::external_type_specification]
pub struct ExScopeSpans(ScopeSpans);

/// `opentelemetry_proto::tonic::trace::v1::Span`, with its fields.
#[verifier::external_type_specification]
pub struct ExSpan(Span);

/// `opentelemetry_proto::tonic::trace::v1::span::Event`, with its fields.
#[verifier::external_type_specification]
pub struct ExEvent(Event);

/// `opentelemetry_proto::tonic::trace::v1::span::Link`, with its fields.
#[verifier::external_type_specification]
pub struct ExLink(Link);

/// `opentelemetry_proto::tonic::trace::v1::Status`, with its fields.
#[verifier::external_type_specification]
pub struct ExStatus(Status);

} // verus!
